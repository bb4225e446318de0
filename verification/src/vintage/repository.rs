//! The directory vintages are kept in: one file for each, named after it.

use vstd::prelude::*;

use crate::signal::feature::identity_of;
use crate::text::{is_stable_order, positions, stable_order, views};
use crate::vintage::content::{content_hash_text, Vintage, VintageError};
use crate::vintage::schema::{assert_schema, is_schema_verdict};

verus! {

/// The ending of the file of a vintage.
pub const VINTAGE_FILE_ENDING: &'static str = ".json";

/// The path of `name` in the directory `root`: a name that begins at the top stands for itself, and a
/// slash stands between the two where the directory does not end in one.
pub open spec fn path_text(root: Seq<char>, name: Seq<char>) -> Seq<char> {
    if name.len() > 0 && name[0] == '/' {
        name
    } else if root.len() == 0 || root.last() == '/' {
        root + name
    } else {
        root + "/"@ + name
    }
}

/// Whether a file of this name in the directory can be a vintage: it has the ending, and something in
/// front of it.
pub open spec fn is_vintage_name(name: Seq<char>) -> bool {
    &&& name.len() > 5
    &&& name.skip(name.len() - 5) == ".json"@
}

/// Whether `r` is the verdict on a loaded vintage whose content writes as `encoded`: refused where the
/// content is not the one that was sealed, else judged by whether it fits this library.
pub open spec fn is_load_verdict(
    vintage: Vintage,
    encoded: Seq<u8>,
    r: Result<(), VintageError>,
) -> bool {
    if vintage.content_hash@ != content_hash_text(encoded) {
        r matches Err(VintageError::HashMismatch { stored, recomputed }) && stored@
            == vintage.content_hash@ && recomputed@ == content_hash_text(encoded)
    } else {
        is_schema_verdict(vintage.content, identity_of(5, Seq::empty()), r)
    }
}

/// The directory vintages are kept in.
#[derive(Debug)]
pub struct VintageRepository {
    root: String,
}

impl View for VintageRepository {
    type V = Seq<char>;

    closed spec fn view(&self) -> Seq<char> {
        self.root@
    }
}

impl Clone for VintageRepository {
    fn clone(&self) -> (r: VintageRepository)
        ensures
            r@ == self@,
    {
        VintageRepository { root: self.root.clone() }
    }
}

impl VintageRepository {
    /// The vintages in the directory `root`.
    pub fn new(root: String) -> (r: VintageRepository)
        ensures
            r@ == root@,
    {
        VintageRepository { root }
    }

    /// The directory.
    pub fn root(&self) -> (r: &str)
        ensures
            r@ == self@,
    {
        self.root.as_str()
    }

    /// The path of a vintage.
    pub fn path_for(&self, vintage_id: &str) -> (r: String)
        ensures
            r@ == path_text(self@, vintage_id@ + ".json"@),
    {
        proof {
            reveal_strlit(".json");
        }
        let n: usize = vintage_id.unicode_len();
        let mut out: String = String::new();
        if n > 0 && vintage_id.get_char(0) == '/' {
            out.append(vintage_id);
            out.append(".json");
            assert(out@ =~= vintage_id@ + ".json"@);
            return out;
        }
        out.append(self.root.as_str());
        let m: usize = self.root.as_str().unicode_len();
        if m > 0 && self.root.as_str().get_char(m - 1) != '/' {
            out.append("/");
        }
        out.append(vintage_id);
        out.append(".json");
        proof {
            let name = vintage_id@ + ".json"@;
            assert(name.len() > 0 && (n > 0 ==> name[0] == vintage_id@[0]));
            assert(n == 0 ==> name[0] == ".json"@[0]);
            assert(out@ =~= path_text(self@, name));
        }
        out
    }

    /// Whether a loaded vintage, whose content writes as `encoded`, may be used: its content is the
    /// one that was sealed, and it fits this library.
    pub fn check_loaded(vintage: &Vintage, encoded: &Vec<u8>) -> (r: Result<(), VintageError>)
        ensures
            is_load_verdict(*vintage, encoded@, r),
    {
        match vintage.verify(encoded) {
            Ok(_) => assert_schema(&vintage.content),
            Err(e) => Err(e),
        }
    }

    /// Whether a file of this name in the directory can be a vintage.
    pub fn is_vintage_file(name: &str) -> (r: bool)
        ensures
            r == is_vintage_name(name@),
    {
        proof {
            reveal_strlit(".json");
        }
        let n: usize = name.unicode_len();
        if n <= 5 {
            return false;
        }
        let ghost tail = name@.skip(n - 5);
        let r: bool = name.get_char(n - 5) == '.' && name.get_char(n - 4) == 'j' && name.get_char(
            n - 3,
        ) == 's' && name.get_char(n - 2) == 'o' && name.get_char(n - 1) == 'n';
        proof {
            assert(tail.len() == 5);
            assert(tail[0] == name@[n - 5] && tail[1] == name@[n - 4] && tail[2] == name@[n - 3]
                && tail[3] == name@[n - 2] && tail[4] == name@[n - 1]);
            if r {
                assert(tail =~= ".json"@);
            }
        }
        r
    }

    /// The order in which vintages of these names are listed: ascending, equal names as they came.
    pub fn listing_order(vintage_ids: &Vec<String>) -> (r: Vec<usize>)
        ensures
            is_stable_order(views(vintage_ids@), positions(r@)),
    {
        stable_order(vintage_ids)
    }
}

/// A vintage whose content is not the one that was sealed is never used, nor is one sealed against
/// another catalogue.
pub proof fn law_no_unverified_vintage_loads(
    vintage: Vintage,
    encoded: Seq<u8>,
    r: Result<(), VintageError>,
)
    requires
        is_load_verdict(vintage, encoded, r),
        r is Ok,
    ensures
        vintage.content_hash@ == content_hash_text(encoded),
        vintage.content.catalogue@ == identity_of(5, Seq::empty()),
{
}

/// The file of a vintage is one that a listing reads, whatever the name of the vintage, if it has one.
pub proof fn law_written_vintages_are_listed(vintage_id: Seq<char>)
    requires
        vintage_id.len() > 0,
    ensures
        is_vintage_name(vintage_id + ".json"@),
{
    reveal_strlit(".json");
    let name = vintage_id + ".json"@;
    assert(name.skip(name.len() - 5) =~= ".json"@);
}

/// A path stays below the directory unless the name itself begins at the top, and one slash stands between
/// the two.
pub proof fn law_paths_stay_below_the_root(root: Seq<char>, name: Seq<char>)
    requires
        name.len() > 0,
    ensures
        name[0] == '/' ==> path_text(root, name) == name,
        name[0] != '/' ==> root.is_prefix_of(path_text(root, name)) && path_text(root, name).skip(
            path_text(root, name).len() - name.len(),
        ) == name,
        name[0] != '/' && root.len() > 0 ==> path_text(root, name)[path_text(root, name).len()
            - name.len() - 1] == '/',
        name[0] != '/' && root.len() > 0 && root.last() == '/' ==> path_text(root, name).len()
            == root.len() + name.len(),
        name[0] != '/' && root.len() > 0 && root.last() != '/' ==> path_text(root, name).len()
            == root.len() + 1 + name.len(),
        name[0] != '/' && root.len() == 0 ==> path_text(root, name) == name,
{
    reveal_strlit("/");
    let path = path_text(root, name);
    if name[0] != '/' {
        assert(path.skip(path.len() - name.len()) =~= name);
        if root.len() == 0 {
            assert(path =~= name);
        }
    }
}

} // verus!
