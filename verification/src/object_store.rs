//! The object store that keeps segments as files under a root directory.
//!
//! Only the naming of files is here; reading and writing them is the
//! caller's I/O. Paths are held as the bytes of the operating system's
//! path, as a Unix system keeps them, so a root that is not UTF-8 is kept
//! as it is.

use vstd::prelude::*;
use vstd::slice::slice_to_vec;
use vstd::string::*;

verus! {

/// The path separator byte (`b'/'`).
pub const SEPARATOR: u8 = 47;

/// The path that joining `key` onto the directory `root` gives on a Unix
/// system (`Path::join`), both taken as bytes: an absolute key (one that
/// starts with `/`) replaces the root; otherwise a `/` separates the two,
/// unless the root is empty or already ends in one.
pub open spec fn joined_path(root: Seq<u8>, key: Seq<u8>) -> Seq<u8> {
    if key.len() > 0 && key[0] == SEPARATOR {
        key
    } else if root.len() == 0 || root.last() == SEPARATOR {
        root + key
    } else {
        root.push(SEPARATOR) + key
    }
}

/// An object store that keeps each object in a file under a root directory.
pub struct LocalFileSystemStore {
    root: Vec<u8>,
}

impl LocalFileSystemStore {
    /// The bytes of the directory under which the store keeps its files.
    pub closed spec fn root(&self) -> Seq<u8> {
        self.root@
    }

    /// A store rooted at the directory whose path has the bytes `root`.
    pub fn new(root: Vec<u8>) -> (store: Self)
        ensures
            store.root() == root@,
    {
        LocalFileSystemStore { root }
    }

    /// The bytes of the directory under which the store keeps its files.
    pub fn root_dir(&self) -> (root: &[u8])
        ensures
            root@ == self.root(),
    {
        self.root.as_slice()
    }

    /// The bytes of the path of the file that holds the object stored under
    /// `key`.
    pub fn path_for_key(&self, key: &str) -> (path: Vec<u8>)
        ensures
            path@ == joined_path(self.root(), key.spec_bytes()),
    {
        let key_bytes = key.as_bytes();
        if key_bytes.len() > 0 && key_bytes[0] == SEPARATOR {
            return slice_to_vec(key_bytes);
        }
        let root_len = self.root.len();
        let mut path = slice_to_vec(self.root.as_slice());
        if root_len > 0 && self.root[root_len - 1] != SEPARATOR {
            path.push(SEPARATOR);
        }
        let ghost start = path@;
        let mut i: usize = 0;
        while i < key_bytes.len()
            invariant
                i <= key_bytes.len(),
                path@ == start + key_bytes@.take(i as int),
            decreases key_bytes.len() - i,
        {
            path.push(key_bytes[i]);
            assert(start + key_bytes@.take(i + 1) =~= (start + key_bytes@.take(i as int)).push(
                key_bytes[i as int],
            ));
            i += 1;
        }
        assert(key_bytes@.take(key_bytes.len() as int) =~= key_bytes@);
        path
    }
}


/// Joining puts the object under the root directory (`Path::join`): for a
/// relative key the path is the root, then exactly one separator unless the
/// root is empty or already ends in one, then the whole key; an absolute key
/// is the path itself.
pub proof fn law_join_places_key_under_root(root: Seq<u8>, key: Seq<u8>)
    ensures
        ({
            let p = joined_path(root, key);
            if key.len() > 0 && key[0] == SEPARATOR {
                p == key
            } else {
                &&& root.len() <= p.len()
                &&& p.take(root.len() as int) == root
                &&& key.len() <= p.len()
                &&& p.skip(p.len() - key.len()) == key
                &&& (root.len() > 0 && root.last() != SEPARATOR) ==> (p.len() == root.len() + 1
                    + key.len() && p[root.len() as int] == SEPARATOR)
                &&& (root.len() == 0 || root.last() == SEPARATOR) ==> p.len() == root.len()
                    + key.len()
            }
        }),
{
    let p = joined_path(root, key);
    if !(key.len() > 0 && key[0] == SEPARATOR) {
        if root.len() == 0 || root.last() == SEPARATOR {
            assert(p.take(root.len() as int) =~= root);
            assert(p.skip(p.len() - key.len()) =~= key);
        } else {
            assert(p.take(root.len() as int) =~= root);
            assert(p.skip(p.len() - key.len()) =~= key);
            assert(p[root.len() as int] == root.push(SEPARATOR)[root.len() as int]);
        }
    }
}

} // verus!
