use vstd::prelude::*;

verus! {

/// A file brought back by a fetch job, as plain bytes.
pub struct FetchedFile {
    pub name: String,
    pub bytes: Vec<u8>,
    pub crs_epsg_code: u16,
}

/// Description of one remote dataset retrieval, handed to the
/// host's background job runner.
pub struct NetworkFetchJob {
    pub url: String,
    pub crs_epsg_code: u16,
    pub name: String,
}

impl NetworkFetchJob {
    /// The job's display name, shown while the fetch runs.
    pub fn name(&self) -> (r: String)
        ensures
            r@ == "Fetching '"@ + self.name@ + "'"@,
    {
        let mut s = String::from_str("Fetching '");
        s.append(self.name.as_str());
        s.append("'");
        s
    }
}

} // verus!
