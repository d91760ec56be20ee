//! Addresses on the model hub, and what it reports of a model.

use vstd::prelude::*;
use vstd::string::StringExecFns;

verus! {

/// What the hub reports of a model.
#[derive(Debug, Clone, PartialEq, Eq)]
pub struct HfModelInfo {
    pub id: String,
    pub tags: Vec<String>,
    pub siblings: Vec<HfFileSibling>,
}

/// One file of a model on the hub.
#[derive(Debug, Clone, PartialEq, Eq)]
pub struct HfFileSibling {
    pub rfilename: String,
    pub size: Option<u64>,
}

/// The address of `filename` in the main revision of `model_id`.
pub open spec fn download_address(model_id: Seq<char>, filename: Seq<char>) -> Seq<char> {
    "https://huggingface.co/"@ + model_id + "/resolve/main/"@ + filename
}

/// The address that the hub reports on `model_id` at.
pub open spec fn info_address(model_id: Seq<char>) -> Seq<char> {
    "https://huggingface.co/api/models/"@ + model_id
}

/// Where a file of a model is downloaded from.
pub fn download_url(model_id: &str, filename: &str) -> (url: String)
    ensures
        url@ == download_address(model_id@, filename@),
{
    let mut url: String = String::from_str("https://huggingface.co/");
    url.append(model_id);
    url.append("/resolve/main/");
    url.append(filename);
    url
}

/// Where the hub is asked about a model.
pub fn model_info_url(model_id: &str) -> (url: String)
    ensures
        url@ == info_address(model_id@),
{
    let mut url: String = String::from_str("https://huggingface.co/api/models/");
    url.append(model_id);
    url
}

} // verus!
