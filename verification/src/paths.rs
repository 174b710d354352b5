//! Rendering of blob-store paths. The layout is fixed for compatibility:
//! a draft's blobs live at `<root>/d/<draft id>/<file id>/<name>`, an
//! edition's at `<root>/e/<edition id>/<file id>/<name>`.

use vstd::prelude::*;
use vstd::string::StringExecFns;

use crate::blob::Blob;
use crate::model::{BlobM, BlobOwnerM};
use crate::numfmt::{dec_str, i32_to_string};

verus! {

/// The directory of one blob owner under the blob-store root.
pub open spec fn owner_dir(root: Seq<char>, o: BlobOwnerM) -> Seq<char> {
    match o {
        BlobOwnerM::Draft(d) => root + "/d/"@ + dec_str(d),
        BlobOwnerM::Edition(e) => root + "/e/"@ + dec_str(e),
    }
}

/// The full path of one blob.
pub open spec fn blob_path_spec(root: Seq<char>, b: BlobM) -> Seq<char> {
    owner_dir(root, b.owner) + "/"@ + dec_str(b.file_id) + "/"@ + b.name
}

/// Joins a base directory, a numeric id and a file name into the path the
/// blob store uses for one file.
pub fn file_path(base: &str, id: i32, name: &str) -> (r: String)
    requires
        0 <= id,
    ensures
        r@ == base@ + "/"@ + dec_str(id as int) + "/"@ + name@,
{
    let mut s = String::from_str(base);
    s.append("/");
    let ds = i32_to_string(id);
    s.append(ds.as_str());
    s.append("/");
    s.append(name);
    proof {
        assert(s@ =~= base@ + "/"@ + dec_str(id as int) + "/"@ + name@);
    }
    s
}

/// Renders the full on-disk path of one blob under the given root.
pub fn blob_path(root: &str, b: &Blob) -> (r: String)
    requires
        match b.owner@ {
            BlobOwnerM::Draft(d) => 0 <= d,
            BlobOwnerM::Edition(e) => 0 <= e,
        },
        0 <= b.file_id,
    ensures
        r@ == blob_path_spec(root@, b@),
{
    let mut s = String::from_str(root);
    match b.owner {
        crate::blob::BlobOwner::Draft(d) => {
            s.append("/d/");
            let ds = i32_to_string(d);
            s.append(ds.as_str());
        },
        crate::blob::BlobOwner::Edition(e) => {
            s.append("/e/");
            let es = i32_to_string(e);
            s.append(es.as_str());
        },
    }
    s.append("/");
    let fs = i32_to_string(b.file_id);
    s.append(fs.as_str());
    s.append("/");
    s.append(b.name.as_str());
    proof {
        assert(s@ =~= blob_path_spec(root@, b@));
    }
    s
}

} // verus!
