use vstd::prelude::*;

use vstd::multiset::Multiset;

use crate::msgpack::{encode_u64_array, msgpack_u64_array};
use crate::orderable::{sort_by_ordering, sorted_by_ordering, Orderable};
use crate::persistable::{PersistError, PersistedFile, Persistable};
use crate::persistable_collection::{inserted_in_order, lemma_add_is_inserts, PersistableCollection};
use crate::persistable_fields::PersistableField;
use crate::text::{decimal, push_decimal};

verus! {

/// How many ids one index file holds.
pub const CHUNK_SIZE: usize = 10;

/// The ids of ranked values, in their order.
pub open spec fn epochs_of(s: Seq<Orderable>) -> Seq<u64> {
    s.map_values(|o: Orderable| o.epoch)
}

/// The `i`-th run of `CHUNK_SIZE` values (the last run may be shorter).
pub open spec fn chunk<A>(s: Seq<A>, i: int) -> Seq<A> {
    let lo = CHUNK_SIZE * i;
    let hi = if lo + CHUNK_SIZE < s.len() { lo + CHUNK_SIZE } else { s.len() as int };
    s.subrange(lo, hi)
}

/// How many index files `n` values take.
pub open spec fn chunk_count(n: nat) -> nat {
    ((n + CHUNK_SIZE - 1) / (CHUNK_SIZE as int)) as nat
}

/// `{base}/s/{field}/{n}.msg`: the path of the `n`-th index file of a field.
pub open spec fn chunk_path(base: Seq<char>, field: Seq<char>, n: nat) -> Seq<char> {
    base + "/s/"@ + field + "/"@ + decimal(n) + ".msg"@
}

/// The index files of a field whose ids, ranked, are `ids`: the `i`-th file, numbered
/// from one, holds the `i`-th run of the ids as a MessagePack array.
pub open spec fn id_files(files: Seq<PersistedFile>, base: Seq<char>, field: Seq<char>, ids: Seq<u64>) -> bool {
    &&& files.len() == chunk_count(ids.len())
    &&& forall|i: int|
        0 <= i < files.len() ==> {
            &&& (#[trigger] files[i]).path@ == chunk_path(base, field, (i + 1) as nat)
            &&& files[i].bytes@ == msgpack_u64_array(chunk(ids, i))
        }
}

/// The index files of a field whose values, ranked, are `s`: the files of their ids.
pub open spec fn index_files(files: Seq<PersistedFile>, base: Seq<char>, field: Seq<char>, s: Seq<Orderable>) -> bool {
    id_files(files, base, field, epochs_of(s))
}

/// The values of a field over a list of models.
pub open spec fn field_values<M, F: PersistableField<M>>(s: Seq<M>) -> Seq<Orderable> {
    s.map_values(|m: M| F::value_of(m))
}

/// A list with no element stands for the empty multiset.
pub proof fn lemma_empty_to_multiset<A>(s: Seq<A>)
    requires
        s.len() == 0,
    ensures
        s.to_multiset() == Multiset::<A>::empty(),
{
    assert forall|a: A| s.to_multiset().count(a) == 0 by {
        vstd::seq_lib::to_multiset_contains(s, a);
    }
    assert(s.to_multiset() =~= Multiset::<A>::empty());
}

/// The values of one field of the models it was given, kept to be stored ranked.
pub struct PersistableBinaryHeap<F> {
    inner: Vec<Orderable>,
    field_name: String,
    get_field_value_fn: F,
}

impl<F> View for PersistableBinaryHeap<F> {
    type V = Multiset<Orderable>;

    closed spec fn view(&self) -> Multiset<Orderable> {
        self.inner@.to_multiset()
    }
}

impl<F> PersistableBinaryHeap<F> {
    /// The name of the field, which names the index directory.
    pub closed spec fn name(&self) -> Seq<char> {
        self.field_name@
    }

    /// Whether `files` are the index files of the collection's values, ranked, under `base`.
    pub open spec fn persisted_as(&self, base: Seq<char>, files: Seq<PersistedFile>) -> bool {
        exists|s: Seq<Orderable>|
            {
                &&& s.to_multiset() == self@
                &&& sorted_by_ordering(s)
                &&& #[trigger] index_files(files, base, self.name(), s)
            }
    }

    /// An empty collection for the field that `get_field_value_fn` reads.
    pub fn new(field_name: String, get_field_value_fn: F) -> (h: Self)
        ensures
            h@ == Multiset::<Orderable>::empty(),
            h.name() == field_name@,
    {
        let h = PersistableBinaryHeap { inner: Vec::new(), field_name, get_field_value_fn };
        proof {
            lemma_empty_to_multiset(h.inner@);
        }
        h
    }
}

impl<M, F: PersistableField<M>> PersistableCollection<M> for PersistableBinaryHeap<F> {
    fn insert(&mut self, indexable: &M)
        ensures
            final(self)@ == old(self)@.insert(F::value_of(*indexable)),
            final(self).name() == old(self).name(),
    {
        let ghost before = self.inner@;
        let o = self.get_field_value_fn.get_value(indexable);
        self.inner.push(o);
        proof {
            vstd::seq_lib::to_multiset_build(before, o);
        }
    }

    fn append(&mut self, indexables: &Vec<M>)
        ensures
            final(self)@ == old(self)@.add(field_values::<M, F>(indexables@).to_multiset()),
            final(self)@ == inserted_in_order(old(self)@, field_values::<M, F>(indexables@)),
            final(self).name() == old(self).name(),
    {
        proof {
            lemma_add_is_inserts(old(self)@, field_values::<M, F>(indexables@));
        }
        broadcast use vstd::multiset::group_multiset_axioms;

        let ghost start = self@;
        proof {
            lemma_empty_to_multiset(field_values::<M, F>(indexables@.subrange(0, 0)));
            assert(start.add(Multiset::empty()) =~= start);
        }
        let mut k: usize = 0;
        while k < indexables.len()
            invariant
                k <= indexables@.len(),
                self@ == start.add(field_values::<M, F>(indexables@.subrange(0, k as int)).to_multiset()),
                self.name() == old(self).name(),
            decreases indexables@.len() - k,
        {
            let ghost done = field_values::<M, F>(indexables@.subrange(0, k as int));
            self.insert(&indexables[k]);
            proof {
                let next = field_values::<M, F>(indexables@.subrange(0, k + 1));
                assert(next =~= done.push(F::value_of(indexables@[k as int])));
                vstd::seq_lib::to_multiset_build(done, F::value_of(indexables@[k as int]));
                assert(self@ =~= start.add(next.to_multiset()));
            }
            k = k + 1;
        }
        assert(indexables@.subrange(0, k as int) =~= indexables@);
    }
}

/// `{base}/s/{field}/{n}.msg`.
fn chunk_file_path(base_dir: &str, field_name: &String, n: u64) -> (p: String)
    ensures
        p@ == chunk_path(base_dir@, field_name@, n as nat),
{
    let mut p = base_dir.to_owned();
    p.append("/s/");
    p.append(field_name.as_str());
    p.append("/");
    push_decimal(&mut p, n);
    p.append(".msg");
    p
}

/// The `n`-th index file of a field, from what the encoder gave back for its ids: the
/// file under its path with the encoded bytes, or an encoding error.
pub fn chunk_file(
    base_dir: &str,
    field_name: &String,
    n: u64,
    encoded: Result<Vec<u8>, rmp_serde::encode::Error>,
) -> (r: Result<PersistedFile, PersistError>)
    ensures
        match encoded {
            Ok(bytes) => r matches Ok(f) && f.path@ == chunk_path(base_dir@, field_name@, n as nat)
                && f.bytes@ == bytes@,
            Err(_) => r == Err::<PersistedFile, PersistError>(PersistError::Encoding),
        },
{
    match encoded {
        Ok(bytes) => Ok(PersistedFile { path: chunk_file_path(base_dir, field_name, n), bytes }),
        Err(_) => Err(PersistError::Encoding),
    }
}

/// The index files of a field from its ids, already ranked: in runs of `CHUNK_SIZE`, each
/// run an array of MessagePack integers under `{dir}/s/{field}/{n}.msg`. Each run goes
/// through the encoder and then `chunk_file`; no id gives no file and no error.
pub fn ranked_index_files(ranked_ids: &Vec<u64>, dir: &str, field: &String) -> (r: Result<Vec<PersistedFile>, PersistError>)
    ensures
        r matches Ok(files) ==> id_files(files@, dir@, field@, ranked_ids@),
        ranked_ids@.len() == 0 ==> (r matches Ok(files) && files@.len() == 0),
        r is Err ==> ranked_ids@.len() > 0,
        r matches Err(e) ==> e == PersistError::Encoding,
{
    let n = ranked_ids.len();
    let mut files: Vec<PersistedFile> = Vec::new();
    let mut i: usize = 0;
    let mut lo: usize = 0;
    while lo < n
        invariant
            n == ranked_ids@.len(),
            lo <= n,
            lo == (if CHUNK_SIZE * i < n { CHUNK_SIZE * i } else { n as int }),
            i == 0 || CHUNK_SIZE * (i - 1) < n,
            files@.len() == i,
            forall|j: int|
                0 <= j < i ==> {
                    &&& (#[trigger] files@[j]).path@ == chunk_path(dir@, field@, (j + 1) as nat)
                    &&& files@[j].bytes@ == msgpack_u64_array(chunk(ranked_ids@, j))
                },
        decreases n - lo,
    {
        let hi = if n - lo > CHUNK_SIZE { lo + CHUNK_SIZE } else { n };
        let mut ids: Vec<u64> = Vec::new();
        let mut k: usize = lo;
        while k < hi
            invariant
                lo <= k <= hi <= n == ranked_ids@.len(),
                ids@ == ranked_ids@.subrange(lo as int, k as int),
            decreases hi - k,
        {
            ids.push(ranked_ids[k]);
            proof {
                assert(ranked_ids@.subrange(lo as int, k + 1) =~= ranked_ids@.subrange(lo as int, k as int).push(
                    ranked_ids@[k as int],
                ));
            }
            k = k + 1;
        }
        assert(ranked_ids@.subrange(lo as int, hi as int) == chunk(ranked_ids@, i as int));
        let encoded = encode_u64_array(&ids);
        match chunk_file(dir, field, (i + 1) as u64, encoded) {
            Ok(file) => files.push(file),
            Err(e) => {
                return Err(e);
            },
        }
        i = i + 1;
        lo = hi;
    }
    assert(files@.len() == chunk_count(n as nat));
    Ok(files)
}

impl<F> Persistable for PersistableBinaryHeap<F> {
    /// The index files of the field: the ids ranked by the field's value, in runs of
    /// `CHUNK_SIZE`, each run an array of MessagePack integers (see `ranked_index_files`);
    /// a collection without values gives no file and no error.
    fn persist(self, base_dir: &str) -> (r: Result<Vec<PersistedFile>, PersistError>)
        ensures
            r matches Ok(files) ==> self.persisted_as(base_dir@, files@),
            self@.len() == 0 ==> (r matches Ok(files) && files@.len() == 0),
            r is Err ==> self@.len() > 0,
            r matches Err(e) ==> e == PersistError::Encoding,
    {
        let field_name = self.field_name;
        let sorted = sort_by_ordering(self.inner);
        proof {
            vstd::seq_lib::to_multiset_len(sorted@);
        }
        let mut ids: Vec<u64> = Vec::new();
        let mut k: usize = 0;
        while k < sorted.len()
            invariant
                k <= sorted@.len(),
                ids@ == epochs_of(sorted@.take(k as int)),
            decreases sorted@.len() - k,
        {
            ids.push(sorted[k].epoch);
            proof {
                assert(epochs_of(sorted@.take(k + 1)) =~= epochs_of(sorted@.take(k as int)).push(sorted@[k as int].epoch));
            }
            k = k + 1;
        }
        assert(sorted@.take(k as int) =~= sorted@);
        let r = ranked_index_files(&ids, base_dir, &field_name);
        proof {
            if r is Ok {
                let files = r->Ok_0;
                assert(index_files(files@, base_dir@, self.name(), sorted@));
                assert(sorted@.to_multiset() == self@);
                assert(sorted_by_ordering(sorted@));
                assert(self.persisted_as(base_dir@, files@));
            }
        }
        r
    }
}

/// The runs before the `n`-th, one after the other.
pub open spec fn chunks_before(s: Seq<Orderable>, n: nat) -> Seq<Orderable>
    decreases n,
{
    if n == 0 {
        Seq::empty()
    } else {
        chunks_before(s, (n - 1) as nat) + chunk(s, n - 1)
    }
}

/// The index files split the ranked values into runs: every run but the last holds
/// `CHUNK_SIZE` values, and the runs one after the other give back all the values, in
/// their order.
pub proof fn lemma_chunks_partition(s: Seq<Orderable>)
    ensures
        chunks_before(s, chunk_count(s.len())) == s,
        forall|i: int| 0 <= i < chunk_count(s.len()) - 1 ==> #[trigger] chunk(s, i).len() == CHUNK_SIZE,
        forall|i: int| 0 <= i < chunk_count(s.len()) ==> 0 < #[trigger] chunk(s, i).len() <= CHUNK_SIZE,
{
    let n = chunk_count(s.len());
    assert forall|k: nat| k <= n implies #[trigger] chunks_before(s, k) == s.take(if CHUNK_SIZE * k < s.len() { CHUNK_SIZE * k } else { s.len() as int }) by {
        lemma_chunks_prefix(s, k);
    }
    assert(s.take(s.len() as int) =~= s);
}

proof fn lemma_chunks_prefix(s: Seq<Orderable>, k: nat)
    requires
        k <= chunk_count(s.len()),
    ensures
        chunks_before(s, k) == s.take(if CHUNK_SIZE * k < s.len() { CHUNK_SIZE * k } else { s.len() as int }),
    decreases k,
{
    if k == 0 {
        assert(s.take(0) =~= Seq::<Orderable>::empty());
    } else {
        lemma_chunks_prefix(s, (k - 1) as nat);
        let lo = CHUNK_SIZE * (k - 1);
        let hi = if CHUNK_SIZE * k < s.len() { CHUNK_SIZE * k } else { s.len() as int };
        assert(lo < s.len());
        assert(s.take(lo) + s.subrange(lo, hi) =~= s.take(hi));
    }
}

} // verus!
