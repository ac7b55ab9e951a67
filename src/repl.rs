use vstd::prelude::*;

verus! {

/// What a command of the front-end returns, so that its result can be shown.
#[derive(Clone, Copy, Debug, PartialEq, Eq, Structural)]
pub enum REPLReturnType {
    Unit,
    Boolean,
    Message,
    Blob,
    Blobs,
    String,
    Strings,
    UnitResult,
    BlobsResult,
    StringsResult,
}

impl REPLReturnType {
    /// The name of the return type, as listed to the user.
    pub open spec fn spec_name(&self) -> &'static str {
        match self {
            REPLReturnType::Unit => "Unit",
            REPLReturnType::Boolean => "Boolean",
            REPLReturnType::Message => "Message",
            REPLReturnType::Blob => "Blob",
            REPLReturnType::Blobs => "Blobs",
            REPLReturnType::String => "String",
            REPLReturnType::Strings => "Strings",
            REPLReturnType::UnitResult => "UnitResult",
            REPLReturnType::BlobsResult => "BlobsResult",
            REPLReturnType::StringsResult => "StringsResult",
        }
    }

    /// The name of the return type, as listed to the user.
    pub fn name(&self) -> (r: &'static str)
        ensures
            r == self.spec_name(),
    {
        match self {
            REPLReturnType::Unit => "Unit",
            REPLReturnType::Boolean => "Boolean",
            REPLReturnType::Message => "Message",
            REPLReturnType::Blob => "Blob",
            REPLReturnType::Blobs => "Blobs",
            REPLReturnType::String => "String",
            REPLReturnType::Strings => "Strings",
            REPLReturnType::UnitResult => "UnitResult",
            REPLReturnType::BlobsResult => "BlobsResult",
            REPLReturnType::StringsResult => "StringsResult",
        }
    }
}

impl Default for REPLReturnType {
    fn default() -> (r: Self)
        ensures
            r == REPLReturnType::Unit,
    {
        REPLReturnType::Unit
    }
}

/// A command registered with the front-end.
#[derive(Clone, Copy, Debug)]
pub struct REPLFunction {
    pub name: &'static str,
    pub description: &'static str,
    pub return_type: REPLReturnType,
}

/// Whether `s` and `t` hold the same characters.
pub fn str_equal(s: &str, t: &str) -> (r: bool)
    ensures
        r == (s@ == t@),
{
    let n = s.unicode_len();
    if n != t.unicode_len() {
        return false;
    }
    let mut i: usize = 0;
    while i < n
        invariant
            n == s@.len(),
            n == t@.len(),
            i <= n,
            forall|j: int| 0 <= j < i ==> s@[j] == t@[j],
        decreases n - i,
    {
        if s.get_char(i) != t.get_char(i) {
            return false;
        }
        i = i + 1;
    }
    assert(s@ =~= t@);
    true
}

/// Whether `prefix` is a prefix of `s`.
pub fn starts_with(s: &str, prefix: &str) -> (r: bool)
    ensures
        r == prefix@.is_prefix_of(s@),
{
    let n = prefix.unicode_len();
    if n > s.unicode_len() {
        return false;
    }
    let mut i: usize = 0;
    while i < n
        invariant
            n == prefix@.len(),
            n <= s@.len(),
            i <= n,
            forall|j: int| 0 <= j < i ==> prefix@[j] == s@[j],
        decreases n - i,
    {
        if s.get_char(i) != prefix.get_char(i) {
            return false;
        }
        i = i + 1;
    }
    true
}

/// The commands registered with the front-end, at most one per name, in the
/// order of their first registration.
#[derive(Clone, Debug)]
pub struct REPLDictionary(Vec<REPLFunction>);

impl View for REPLDictionary {
    type V = Seq<REPLFunction>;

    closed spec fn view(&self) -> Seq<REPLFunction> {
        self.0@
    }
}

/// Whether no two commands share a name.
pub open spec fn names_unique(commands: Seq<REPLFunction>) -> bool {
    forall|i: int, j: int|
        0 <= i < commands.len() && 0 <= j < commands.len() && i != j ==> commands[i].name@
            != commands[j].name@
}

/// The entry that registering `name` with `return_type` makes.
pub open spec fn registered(name: &'static str, return_type: REPLReturnType) -> REPLFunction {
    REPLFunction { name, description: "", return_type }
}

/// The line that lists `f`.
pub open spec fn line_of(f: REPLFunction) -> Seq<char> {
    f.name@ + "\t: "@ + f.description@ + "\t: "@ + f.return_type.spec_name()@
}

impl REPLDictionary {
    /// No command registered.
    pub fn new() -> (r: REPLDictionary)
        ensures
            r@ == Seq::<REPLFunction>::empty(),
            names_unique(r@),
    {
        let r = REPLDictionary(Vec::new());
        assert(r@ =~= Seq::<REPLFunction>::empty());
        r
    }

    /// Registers the command `name`, replacing the earliest registration of it if
    /// there is one.
    pub fn add(&mut self, name: &'static str, return_type: &REPLReturnType)
        ensures
            names_unique(old(self)@) ==> names_unique(final(self)@),
            (exists|i: int| 0 <= i < old(self)@.len() && old(self)@[i].name@ == name@) ==> exists|
                i: int,
            |
                0 <= i < old(self)@.len() && old(self)@[i].name@ == name@ && (forall|j: int|
                    0 <= j < i ==> old(self)@[j].name@ != name@) && final(self)@ == old(self)@.update(
                    i,
                    registered(name, *return_type),
                ),
            (forall|i: int| 0 <= i < old(self)@.len() ==> old(self)@[i].name@ != name@)
                ==> final(self)@ == old(self)@.push(registered(name, *return_type)),
    {
        let function = REPLFunction { name, description: "", return_type: *return_type };
        let mut i: usize = 0;
        while i < self.0.len()
            invariant
                *self == *old(self),
                function == registered(name, *return_type),
                i <= self.0@.len(),
                forall|j: int| 0 <= j < i ==> self@[j].name@ != name@,
            decreases self.0@.len() - i,
        {
            if str_equal(self.0[i].name, name) {
                let ghost k = i as int;
                self.0.set(i, function);
                assert(self@ == old(self)@.update(k, registered(name, *return_type)));
                return;
            }
            i = i + 1;
        }
        self.0.push(function);
    }

    /// The return type of the first registered command whose name begins `input`.
    pub fn get_starts_with(&self, input: &String) -> (r: Option<REPLReturnType>)
        ensures
            match r {
                Some(t) => exists|i: int|
                    0 <= i < self@.len() && self@[i].name@.is_prefix_of(input@) && self@[i].return_type == t
                        && forall|j: int| 0 <= j < i ==> !self@[j].name@.is_prefix_of(input@),
                None => forall|i: int| 0 <= i < self@.len() ==> !self@[i].name@.is_prefix_of(input@),
            },
    {
        let mut i: usize = 0;
        while i < self.0.len()
            invariant
                i <= self.0@.len(),
                forall|j: int| 0 <= j < i ==> !self@[j].name@.is_prefix_of(input@),
            decreases self.0@.len() - i,
        {
            if starts_with(input.as_str(), self.0[i].name) {
                return Some(self.0[i].return_type);
            }
            i = i + 1;
        }
        None
    }

    /// One line per command: its name, description and return type.
    pub fn describe(&self) -> (r: Vec<String>)
        ensures
            r@.len() == self@.len(),
            forall|i: int| 0 <= i < r@.len() ==> r@[i]@ == line_of(self@[i]),
    {
        let mut lines: Vec<String> = Vec::new();
        let mut i: usize = 0;
        while i < self.0.len()
            invariant
                i <= self.0@.len(),
                lines@.len() == i,
                forall|j: int| 0 <= j < i ==> lines@[j]@ == line_of(self@[j]),
            decreases self.0@.len() - i,
        {
            let f = self.0[i];
            let mut line = String::from_str(f.name);
            line.append("\t: ");
            line.append(f.description);
            line.append("\t: ");
            line.append(f.return_type.name());
            lines.push(line);
            i = i + 1;
        }
        lines
    }
}

} // verus!
