//! Storage layer over the embedded `sled` store.
//!
//! Each keyspace is held behind [`Tree`], whose contents Verus sees as a
//! map from key characters to value characters through the uninterpreted
//! [`tree_view`]. Keys are entity ids (ASCII), values are codec records;
//! both travel as UTF-8 bytes on disk, and an entry whose bytes are not
//! valid UTF-8 surfaces as a storage error. Every sled call sits behind
//! a trusted wrapper whose contract states what the call does to the
//! contents; `scan` yields the entries in ascending key order.

use vstd::prelude::*;

verus! {

/// An underlying storage failure: an I/O error, or an entry that could
/// not be read back.
#[derive(Clone, Copy, Debug)]
pub struct StorageError;

/// A handle to an open store.
#[verifier::external_body]
pub struct Db {
    inner: sled::Db,
}

/// One keyspace of the store.
#[verifier::external_body]
pub struct Tree {
    inner: sled::Tree,
}

/// The contents of a keyspace: a map from key characters to value
/// characters.
pub uninterp spec fn tree_view(t: Tree) -> Map<Seq<char>, Seq<char>>;

/// Relies on `sled::open`: opens (creating as needed) the store rooted
/// at `path`. Nothing is promised of the contents found there.
#[verifier::external_body]
pub(crate) fn open_db(path: &str) -> (r: Result<Db, StorageError>) {
    match sled::open(path) {
        Ok(d) => Ok(Db { inner: d }),
        Err(_) => Err(StorageError),
    }
}

/// Relies on `sled::Db::open_tree`: opens the named keyspace. Nothing
/// is promised of the contents found there. Crate-private, as is every
/// `Tree` method: opening one name twice would alias two `Tree` values
/// over one keyspace, and the library opens each name exactly once.
#[verifier::external_body]
pub(crate) fn open_tree(db: &Db, name: &str) -> (r: Result<Tree, StorageError>) {
    match db.inner.open_tree(name) {
        Ok(t) => Ok(Tree { inner: t }),
        Err(_) => Err(StorageError),
    }
}

/// Strict lexicographic order on character sequences. UTF-8 encoding
/// preserves code-point order, so this is also the byte order of the
/// encoded keys on disk.
pub open spec fn lex_lt(a: Seq<char>, b: Seq<char>) -> bool
    decreases a.len(),
{
    if b.len() == 0 {
        false
    } else if a.len() == 0 {
        true
    } else if a[0] != b[0] {
        (a[0] as u32) < (b[0] as u32)
    } else {
        lex_lt(a.drop_first(), b.drop_first())
    }
}

/// Lexicographically ordered sequences are distinct.
pub proof fn lemma_lex_lt_ne(a: Seq<char>, b: Seq<char>)
    requires
        lex_lt(a, b),
    ensures
        a != b,
    decreases a.len(),
{
    if b.len() == 0 {
    } else if a.len() == 0 {
    } else if a[0] != b[0] {
        assert(a[0] != b[0]);
    } else {
        lemma_lex_lt_ne(a.drop_first(), b.drop_first());
        if a == b {
            assert(a.drop_first() =~= b.drop_first());
        }
    }
}


/// Lexicographic order is transitive.
pub proof fn lemma_lex_lt_trans(a: Seq<char>, b: Seq<char>, c: Seq<char>)
    requires
        lex_lt(a, b),
        lex_lt(b, c),
    ensures
        lex_lt(a, c),
    decreases a.len(),
{
    if a.len() == 0 {
        assert(c.len() > 0);
    } else {
        assert(b.len() > 0);
        assert(c.len() > 0);
        if a[0] == b[0] && b[0] == c[0] {
            lemma_lex_lt_trans(a.drop_first(), b.drop_first(), c.drop_first());
        } else if a[0] != b[0] && b[0] != c[0] {
            assert((a[0] as u32) < (c[0] as u32));
            assert(a[0] != c[0]);
        } else if a[0] != b[0] {
            assert((a[0] as u32) < (c[0] as u32));
            assert(a[0] != c[0]);
        } else {
            assert((a[0] as u32) < (c[0] as u32));
            assert(a[0] != c[0]);
        }
    }
}

/// The keys of scanned pairs, as character sequences.
pub open spec fn pair_keys(pairs: Seq<(String, Vec<char>)>) -> Seq<Seq<char>> {
    pairs.map_values(|p: (String, Vec<char>)| p.0@)
}

impl Tree {
    /// Relies on `sled::Tree::insert`: sets `key` to `value`,
    /// overwriting any previous value. On an error the write may or may
    /// not have taken effect.
    #[verifier::external_body]
    pub(crate) fn put(&mut self, key: &String, value: &Vec<char>) -> (r: Result<(), StorageError>)
        ensures
            r is Ok ==> tree_view(*final(self)) == tree_view(*old(self)).insert(key@, value@),
            r is Err ==> tree_view(*final(self)) == tree_view(*old(self)) || tree_view(
                *final(self),
            ) == tree_view(*old(self)).insert(key@, value@),
    {
        let s: String = value.iter().collect();
        match self.inner.insert(key.as_bytes(), s.as_bytes()) {
            Ok(_) => Ok(()),
            Err(_) => Err(StorageError),
        }
    }

    /// Relies on `sled::Tree::get`: point lookup of `key`.
    #[verifier::external_body]
    pub(crate) fn get(&self, key: &String) -> (r: Result<Option<Vec<char>>, StorageError>)
        ensures
            r matches Ok(Some(v)) ==> tree_view(*self).contains_key(key@) && v@ == tree_view(
                *self,
            )[key@],
            r matches Ok(o) && o is None ==> !tree_view(*self).contains_key(key@),
    {
        match self.inner.get(key.as_bytes()) {
            Ok(Some(iv)) => match std::str::from_utf8(&iv) {
                Ok(st) => Ok(Some(st.chars().collect())),
                Err(_) => Err(StorageError),
            },
            Ok(None) => Ok(None),
            Err(_) => Err(StorageError),
        }
    }

    /// Relies on `sled::Tree::remove`: deletes `key`; removing an
    /// absent key succeeds and changes nothing. On an error the delete
    /// may or may not have taken effect.
    #[verifier::external_body]
    pub(crate) fn del(&mut self, key: &String) -> (r: Result<(), StorageError>)
        ensures
            r is Ok ==> tree_view(*final(self)) == tree_view(*old(self)).remove(key@),
            r is Err ==> tree_view(*final(self)) == tree_view(*old(self)) || tree_view(
                *final(self),
            ) == tree_view(*old(self)).remove(key@),
    {
        match self.inner.remove(key.as_bytes()) {
            Ok(_) => Ok(()),
            Err(_) => Err(StorageError),
        }
    }

    /// Relies on `sled::Tree::iter`: a full scan. On success the pairs
    /// carry every entry of the keyspace exactly once, each key with
    /// its value, in strictly ascending key order (sled iterates in
    /// byte order, which UTF-8 keys share with `lex_lt`).
    #[verifier::external_body]
    pub(crate) fn scan(&self) -> (r: Result<Vec<(String, Vec<char>)>, StorageError>)
        ensures
            r matches Ok(pairs) ==> {
                &&& forall|q: int|
                    0 <= q < pairs.len() ==> tree_view(*self).contains_key(
                        (#[trigger] pairs[q]).0@,
                    ) && pairs[q].1@ == tree_view(*self)[pairs[q].0@]
                &&& forall|k: Seq<char>|
                    tree_view(*self).contains_key(k) ==> #[trigger] pair_keys(pairs@).contains(k)
                &&& forall|q1: int, q2: int|
                    0 <= q1 < q2 < pairs.len() ==> (#[trigger] pairs[q1]).0@ != (
                    #[trigger] pairs[q2]).0@
                &&& forall|q1: int, q2: int|
                    0 <= q1 < q2 < pairs.len() ==> lex_lt(
                        (#[trigger] pairs[q1]).0@,
                        (#[trigger] pairs[q2]).0@,
                    )
            },
    {
        let mut out: Vec<(String, Vec<char>)> = Vec::new();
        for item in self.inner.iter() {
            let (k, v) = item.map_err(|_| StorageError)?;
            let ks = String::from_utf8(k.to_vec()).map_err(|_| StorageError)?;
            let vs = String::from_utf8(v.to_vec()).map_err(|_| StorageError)?;
            out.push((ks, vs.chars().collect()));
        }
        Ok(out)
    }
}

} // verus!
