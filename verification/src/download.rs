//! The per-record download decision: whether a fetched response is saved,
//! and under which file name. Fetching and writing are I/O and live with
//! the caller; this module fixes what the caller must do with a response.

use vstd::prelude::*;
use crate::text::{extension_of, extension_str};
use crate::user::{MutualUser, MutualUserV};

verus! {

/// An HTTP status that counts as success: the 2xx class.
pub open spec fn is_success_status(status: u16) -> bool {
    200 <= status < 300
}

/// The file name a record's image is saved under: the handle, a dot, and
/// the extension its URL names.
pub open spec fn file_name_of(user: MutualUserV) -> Seq<char> {
    user.username + "."@ + extension_of(user.profile_image_url)
}

/// What the caller is to do with the response to one download attempt.
pub enum DownloadAction {
    /// The response succeeded: write its body under this file name in the
    /// destination folder.
    Save { file_name: String },
    /// The response failed: write nothing and report the failure.
    ReportFailure,
}

/// The file name for `user`'s image, built as `file_name_of` says.
pub fn file_name_for(user: &MutualUser) -> (r: String)
    ensures
        r@ == file_name_of(user@),
{
    let extension = extension_str(user.profile_image_url.as_str());
    user.username.clone().concat(".").concat(extension.as_str())
}

/// Decides one download attempt from the response status: a 2xx response
/// is saved under the derived file name, any other response is only
/// reported.
pub fn plan_download(user: &MutualUser, status: u16) -> (r: DownloadAction)
    ensures
        is_success_status(status) ==> (r matches DownloadAction::Save { file_name }
            && file_name@ == file_name_of(user@)),
        !is_success_status(status) ==> r is ReportFailure,
{
    if 200 <= status && status < 300 {
        DownloadAction::Save { file_name: file_name_for(user) }
    } else {
        DownloadAction::ReportFailure
    }
}

} // verus!
