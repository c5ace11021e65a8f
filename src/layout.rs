//! Where things live: the store, staging and recycle directories, mirror
//! URLs, and the paths that the dist-tree linker creates.
//!
//! A repository path is split on `/` into segments. Every segment but the
//! last names a directory. The linker gives every such directory a `pool`
//! link to `../pool`, and turns the path itself into a relative link back to
//! the blob of its content hash in the store.

use vstd::prelude::*;

use crate::text::{chars_of, extend_chars, string_from};

verus! {

/// The directory of published blobs.
pub const STORE_DIR: &'static str = "SHA256";

/// The directory of downloads that are not verified yet.
pub const STAGING_DIR: &'static str = "TMP";

/// The directory that holds the previous generation of the store.
pub const RECYCLE_DIR: &'static str = "WASTE";

/// The name of the shared pool access point in every directory.
pub const POOL_NAME: &'static str = "pool";

/// Where every `pool` access point leads.
pub const POOL_LINK_TARGET: &'static str = "../pool";

/// The three directories of the content store, relative to the working
/// directory.
#[derive(Clone, Debug)]
pub struct StoreLayout {
    pub store: String,
    pub staging: String,
    pub recycle: String,
}

/// `dir/name`.
pub open spec fn path_in(dir: Seq<char>, name: Seq<char>) -> Seq<char> {
    dir + seq!['/'] + name
}

/// `a` followed by `/` and `b`, as a string.
pub fn join_path(a: &str, b: &str) -> (r: String)
    ensures
        r@ == path_in(a@, b@),
{
    let mut cs = chars_of(a);
    let tail = chars_of(b);
    cs.push('/');
    extend_chars(&mut cs, &tail, 0, tail.len());
    assert(tail@.subrange(0, tail@.len() as int) =~= tail@);
    string_from(cs)
}

impl StoreLayout {
    /// The layout under the working directory: `SHA256/`, `TMP/`, `WASTE/`.
    pub fn standard() -> (r: StoreLayout)
        ensures
            r.store@ == STORE_DIR@,
            r.staging@ == STAGING_DIR@,
            r.recycle@ == RECYCLE_DIR@,
    {
        StoreLayout {
            store: string_from(chars_of(STORE_DIR)),
            staging: string_from(chars_of(STAGING_DIR)),
            recycle: string_from(chars_of(RECYCLE_DIR)),
        }
    }

    /// Where the blob with this hash is published.
    pub fn blob_path(&self, hash: &str) -> (r: String)
        ensures
            r@ == path_in(self.store@, hash@),
    {
        join_path(self.store.as_str(), hash)
    }

    /// Where the download of the blob with this hash is staged.
    pub fn staged_path(&self, hash: &str) -> (r: String)
        ensures
            r@ == path_in(self.staging@, hash@),
    {
        join_path(self.staging.as_str(), hash)
    }

    /// Where the previous generation keeps the blob with this hash.
    pub fn recycled_path(&self, hash: &str) -> (r: String)
        ensures
            r@ == path_in(self.recycle@, hash@),
    {
        join_path(self.recycle.as_str(), hash)
    }
}

/// The URL of a repository path on a mirror.
pub fn mirror_url(base: &str, repo_path: &str) -> (r: String)
    ensures
        r@ == path_in(base@, repo_path@),
{
    join_path(base, repo_path)
}

} // verus!
