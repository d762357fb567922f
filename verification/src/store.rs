//! The file reassembler's storage model: a map from target path to file
//! bytes, written at byte offsets so that chunks may arrive out of order or
//! be retransmitted without corrupting the result.
//!
//! The surrounding system mirrors each write to the real file system; the
//! core's reasoning about file contents happens here.

use vstd::prelude::*;
use vstd::slice::slice_to_vec;

use crate::assoc::{
    assoc_map, find_index, lemma_assoc_map_absent, lemma_assoc_map_index, lemma_assoc_map_push,
    lemma_assoc_map_update, unique_keys,
};

verus! {

/// The bytes of file `f` after writing `payload` at byte offset `offset`:
/// the written range holds the payload, every other existing byte is kept,
/// and a gap between the old end and the written range is zero-filled. The
/// file is never truncated.
pub open spec fn spec_write_at(f: Seq<u8>, offset: nat, payload: Seq<u8>) -> Seq<u8> {
    let end = offset + payload.len();
    let newlen = if f.len() >= end {
        f.len()
    } else {
        end
    };
    Seq::new(
        newlen as nat,
        |i: int|
            if offset <= i < end {
                payload[i - offset]
            } else if i < f.len() {
                f[i]
            } else {
                0u8
            },
    )
}

/// The bytes stored at `path`, or the empty file where nothing is stored.
pub open spec fn spec_file_at(m: Map<Seq<char>, Seq<u8>>, path: Seq<char>) -> Seq<u8> {
    if m.contains_key(path) {
        m[path]
    } else {
        Seq::empty()
    }
}

/// In-memory file storage: one byte vector per target path.
pub struct FileStore {
    files: Vec<(String, Vec<u8>)>,
}

impl View for FileStore {
    type V = Map<Seq<char>, Seq<u8>>;

    closed spec fn view(&self) -> Map<Seq<char>, Seq<u8>> {
        assoc_map(self.files@)
    }
}

impl FileStore {
    /// Well-formedness: one entry per path.
    pub closed spec fn inv(&self) -> bool {
        unique_keys(self.files@)
    }

    /// An empty store.
    pub fn new() -> (r: Self)
        ensures
            r.inv(),
            r@ == Map::<Seq<char>, Seq<u8>>::empty(),
    {
        FileStore { files: Vec::new() }
    }

    /// Whether a file exists at `path`.
    pub fn file_exists(&self, path: &String) -> (r: bool)
        requires
            self.inv(),
        ensures
            r == self@.contains_key(path@),
    {
        let r = find_index(&self.files, path);
        proof {
            match r {
                Some(i) => lemma_assoc_map_index(self.files@, i as int),
                None => lemma_assoc_map_absent(self.files@, path@),
            }
        }
        r.is_some()
    }

    /// A copy of the bytes stored at `path`.
    pub fn read_file(&self, path: &String) -> (r: Option<Vec<u8>>)
        requires
            self.inv(),
        ensures
            r is Some <==> self@.contains_key(path@),
            r matches Some(v) ==> v@ == self@[path@],
    {
        match find_index(&self.files, path) {
            Some(i) => {
                proof {
                    lemma_assoc_map_index(self.files@, i as int);
                }
                Some(slice_to_vec(self.files[i].1.as_slice()))
            },
            None => {
                proof {
                    lemma_assoc_map_absent(self.files@, path@);
                }
                None
            },
        }
    }

    /// Writes `payload` at byte offset `offset` of the file at `path`,
    /// creating the file if it is absent and never truncating it.
    pub fn write_at(&mut self, path: &String, offset: usize, payload: &Vec<u8>)
        requires
            old(self).inv(),
            offset + payload@.len() <= usize::MAX,
        ensures
            final(self).inv(),
            final(self)@ == old(self)@.insert(
                path@,
                spec_write_at(spec_file_at(old(self)@, path@), offset as nat, payload@),
            ),
    {
        let ghost oldfile = spec_file_at(old(self)@, path@);
        let idx = match find_index(&self.files, path) {
            Some(i) => {
                proof {
                    lemma_assoc_map_index(self.files@, i as int);
                }
                i
            },
            None => {
                let i = self.files.len();
                let ghost prefiles = self.files@;
                let empty: Vec<u8> = Vec::new();
                let ghost gempty = empty;
                self.files.push((path.clone(), empty));
                proof {
                    lemma_assoc_map_absent(prefiles, path@);
                    lemma_assoc_map_push(prefiles, *path, gempty);
                }
                i
            },
        };
        let ghost pre = self.files@;
        assert(unique_keys(pre));
        assert(idx < pre.len() && pre[idx as int].0@ == path@);
        assert(pre[idx as int].1@ == oldfile) by {
            lemma_assoc_map_index(pre, idx as int);
        }

        let mut data = slice_to_vec(self.files[idx].1.as_slice());
        let end = offset + payload.len();
        assert(data@ =~= oldfile + Seq::new((data@.len() - oldfile.len()) as nat, |k: int| 0u8));
        while data.len() < end
            invariant
                data@.len() >= oldfile.len(),
                data@.len() <= end || data@.len() == oldfile.len(),
                data@ == oldfile + Seq::new((data@.len() - oldfile.len()) as nat, |k: int| 0u8),
                end <= usize::MAX,
            decreases end - data@.len(),
        {
            data.push(0);
            assert(data@ =~= oldfile + Seq::new((data@.len() - oldfile.len()) as nat, |k: int| 0u8));
        }
        let ghost padded = data@;

        let mut i: usize = 0;
        while i < payload.len()
            invariant
                i <= payload@.len(),
                offset + payload@.len() <= data@.len(),
                offset + payload@.len() <= usize::MAX,
                data@.len() == padded.len(),
                forall|k: int|
                    0 <= k < data@.len() ==> data@[k] == (if offset <= k < offset + i {
                        payload@[k - offset]
                    } else {
                        padded[k]
                    }),
            decreases payload@.len() - i,
        {
            let b = payload[i];
            data[offset + i] = b;
            i = i + 1;
        }
        assert(data@ =~= spec_write_at(oldfile, offset as nat, payload@));

        let ghost gdata = data;
        let entry = &mut self.files[idx];
        entry.1 = data;
        proof {
            assert(self.files@ == pre.update(idx as int, (pre[idx as int].0, gdata)));
            lemma_assoc_map_update(pre, idx as int, gdata);
            assert(old(self)@.insert(path@, Seq::<u8>::empty()).insert(path@, gdata@) =~= old(
                self,
            )@.insert(path@, gdata@));
        }
    }
}

/// Idempotent chunk write: writing the same payload at the same offset twice
/// leaves exactly the file bytes one write leaves.
pub proof fn lemma_write_idempotent(f: Seq<u8>, offset: nat, p: Seq<u8>)
    ensures
        spec_write_at(spec_write_at(f, offset, p), offset, p) == spec_write_at(f, offset, p),
{
    assert(spec_write_at(spec_write_at(f, offset, p), offset, p) =~= spec_write_at(f, offset, p));
}

/// Writes to disjoint byte ranges commute: the file bytes do not depend on
/// the order in which the two chunks arrived.
pub proof fn lemma_write_commutes(f: Seq<u8>, off1: nat, p1: Seq<u8>, off2: nat, p2: Seq<u8>)
    requires
        off1 + p1.len() <= off2 || off2 + p2.len() <= off1,
    ensures
        spec_write_at(spec_write_at(f, off1, p1), off2, p2) == spec_write_at(
            spec_write_at(f, off2, p2),
            off1,
            p1,
        ),
{
    assert(spec_write_at(spec_write_at(f, off1, p1), off2, p2) =~= spec_write_at(
        spec_write_at(f, off2, p2),
        off1,
        p1,
    ));
}

/// Chunk writes at distinct indices of one upload commute: each chunk's slot
/// is `chunk_length` bytes wide at offset `index * chunk_length`, so distinct
/// indices write disjoint ranges.
pub proof fn lemma_chunk_writes_commute(
    f: Seq<u8>,
    i: nat,
    j: nat,
    chunk_length: nat,
    p1: Seq<u8>,
    p2: Seq<u8>,
)
    requires
        i != j,
        p1.len() <= chunk_length,
        p2.len() <= chunk_length,
    ensures
        spec_write_at(spec_write_at(f, i * chunk_length, p1), j * chunk_length, p2)
            == spec_write_at(spec_write_at(f, j * chunk_length, p2), i * chunk_length, p1),
{
    assert(i < j ==> i * chunk_length + chunk_length <= j * chunk_length) by (nonlinear_arith);
    assert(j < i ==> j * chunk_length + chunk_length <= i * chunk_length) by (nonlinear_arith);
    lemma_write_commutes(f, i * chunk_length, p1, j * chunk_length, p2);
}

} // verus!
