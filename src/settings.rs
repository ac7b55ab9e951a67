use vstd::prelude::*;

verus! {

/// Process configuration: where the blob store is.
#[derive(Debug, Clone)]
pub struct Settings {
    pub server: String,
}

impl Settings {
    /// The address of the log of `group_id` on the blob store.
    pub fn blobs_url(&self, group_id: &str) -> (r: String)
        ensures
            r@ == self.server@ + "/groups/"@ + group_id@ + "/blobs"@,
    {
        let mut url = self.server.clone();
        url.append("/groups/");
        url.append(group_id);
        url.append("/blobs");
        url
    }
}

} // verus!
