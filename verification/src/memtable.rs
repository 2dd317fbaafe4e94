//! The in-memory table engine: columnar batches, the per-prefix
//! catalog of writable and sealed generations, and the
//! schema-reconciling merge that every insert performs.

pub mod batch;
pub mod dash;
pub mod immtables;
pub mod memory;
pub mod mutables;
pub mod table_index;
pub mod table_name;
pub mod table_size;

use vstd::prelude::*;
use vstd::string::*;

use crate::memtable::batch::{
    batch_equiv, batch_size_spec, deref_bs, merge_batches, merged_col, sum_rows,
    union_fields, union_schemas, Batch, Field,
};
use crate::memtable::memory::{MemTable, MAX_BATCH_SIZE};
use crate::memtable::table_index::TableIndexs;
use crate::memtable::table_size::TableSize;
use crate::utils::table_name::TableName;
use crate::utils::text::dec_str;

verus! {

/// What can go wrong inside the table engine.
#[derive(Debug, Clone, Copy, PartialEq, Eq, Structural)]
pub enum EngineError {
    /// Two schemas give one field name two different types.
    SchemaConflict,
    /// No table is registered under the asked-for name.
    NotFound,
    /// A merge would produce more rows than the machine can count.
    TooLarge,
}

/// The batch registered under a name: the youngest registration wins,
/// older ones are shadowed but never removed.
pub open spec fn store_find(s: Seq<(String, Batch)>, name: Seq<char>) -> Option<Batch>
    decreases s.len(),
{
    if s.len() == 0 {
        None
    } else if s.last().0@ == name {
        Some(s.last().1)
    } else {
        store_find(s.drop_last(), name)
    }
}

pub proof fn lemma_store_find_push(s: Seq<(String, Batch)>, e: (String, Batch), name: Seq<char>)
    ensures
        store_find(s.push(e), name) == if e.0@ == name {
            Some(e.1)
        } else {
            store_find(s, name)
        },
{
    assert(s.push(e).drop_last() =~= s);
    assert(s.push(e).last() == e);
}

/// The rendered name of a generation produced at time `t` for a
/// prefix.
pub open spec fn gen_name(p: Seq<char>, t: u64) -> Seq<char> {
    p + seq!['-'] + dec_str(t as int)
}

/// The identifiers under a prefix: its sealed generations, oldest
/// first, then its writable one when present.
pub open spec fn names_for(s: MemTableService, p: Seq<char>) -> Seq<TableName> {
    let sealed_names = Seq::new(
        s.table_indexs.sealed(p).len(),
        |i: int| s.table_indexs.sealed(p)[i].name,
    );
    if s.table_indexs.writable().dom().contains(p) {
        sealed_names.push(s.table_indexs.writable()[p].name)
    } else {
        sealed_names
    }
}

/// The registered batches found under a list of identifiers, in
/// order, skipping names that were never registered.
pub open spec fn gather(s: Seq<(String, Batch)>, names: Seq<TableName>) -> Seq<Batch>
    decreases names.len(),
{
    if names.len() == 0 {
        Seq::empty()
    } else {
        gather(s, names.drop_last()) + (match store_find(s, names.last().mem_name_spec()) {
            Some(b) => seq![b],
            None => Seq::<Batch>::empty(),
        })
    }
}

pub proof fn lemma_gather_take_step(s: Seq<(String, Batch)>, names: Seq<TableName>, i: int)
    requires
        0 <= i < names.len(),
    ensures
        gather(s, names.take(i + 1)) == gather(s, names.take(i)) + (match store_find(
            s,
            names[i].mem_name_spec(),
        ) {
            Some(b) => seq![b],
            None => Seq::<Batch>::empty(),
        }),
{
    assert(names.take(i + 1).drop_last() =~= names.take(i));
    assert(names.take(i + 1).last() == names[i]);
}

/// Whether a prefix stands in the known-prefix list.
pub open spec fn prefix_listed(ps: Seq<String>, p: Seq<char>) -> bool {
    exists|i: int| 0 <= i < ps.len() && (#[trigger] ps[i])@ == p
}

/// Whether an insert of this batch would be asked to merge one field
/// name under two different types.
pub open spec fn insert_conflict(pre: MemTableService, batch: Batch) -> bool {
    let p = batch.table_meta.unwrap()@;
    if pre.table_indexs.writable().dom().contains(p) && pre.table_indexs.writable()[p].mutable {
        union_schemas(
            seq![
                store_find(
                    pre.store@,
                    pre.table_indexs.writable()[p].name.mem_name_spec(),
                ).unwrap(),
                batch,
            ],
        ) is None
    } else {
        union_fields(Seq::<Field>::empty(), batch.fields@) is None
    }
}

/// Whether an insert of this batch would merge more rows than the
/// machine can count.
pub open spec fn insert_rows_over(pre: MemTableService, batch: Batch) -> bool {
    let p = batch.table_meta.unwrap()@;
    if pre.table_indexs.writable().dom().contains(p) && pre.table_indexs.writable()[p].mutable {
        store_find(
            pre.store@,
            pre.table_indexs.writable()[p].name.mem_name_spec(),
        ).unwrap().row_count + batch.row_count > usize::MAX
    } else {
        false
    }
}

/// What a successful insert at time `t` leaves behind: the merged
/// batch registered under the fresh generation name, the catalog's
/// writable slot moved to the fresh generation, the previous
/// generation sealed when it had stopped taking merges, and the
/// merged batch's schema and columns pinned by the merge algorithm.
pub open spec fn inserted_state(
    pre: MemTableService,
    post: MemTableService,
    batch: Batch,
    t: u64,
) -> bool {
    let p = batch.table_meta.unwrap()@;
    let w = post.table_indexs.writable()[p];
    let merged = store_find(post.store@, gen_name(p, t)).unwrap();
    &&& post.table_indexs.writable().dom().contains(p)
    &&& post.table_indexs.writable() == pre.table_indexs.writable().insert(p, w)
    &&& w.name.prefix@ == p
    &&& w.name.time == Some(t)
    &&& w.name.suffix is None
    &&& w.mutable == (w.size <= MAX_BATCH_SIZE)
    &&& (batch_size_spec(merged) <= usize::MAX ==> w.size == batch_size_spec(merged))
    &&& (batch_size_spec(merged) > usize::MAX ==> w.size == usize::MAX)
    &&& store_find(post.store@, gen_name(p, t)) is Some
    &&& merged.wf()
    &&& merged.table_meta is None
    &&& (forall|n: Seq<char>|
        n != gen_name(p, t) ==> store_find(post.store@, n) == store_find(pre.store@, n))
    &&& (if pre.table_indexs.writable().dom().contains(p) && !pre.table_indexs.writable()[p].mutable {
        &&& post.table_indexs.sealed(p) == pre.table_indexs.sealed(p).push(
            pre.table_indexs.writable()[p],
        )
        &&& forall|q: Seq<char>|
            q != p ==> post.table_indexs.sealed(q) == pre.table_indexs.sealed(q)
    } else {
        forall|q: Seq<char>|
            (#[trigger] post.table_indexs.sealed(q)) == pre.table_indexs.sealed(q)
    })
    &&& (if pre.table_indexs.writable().dom().contains(p) && pre.table_indexs.writable()[p].mutable {
        let old_b = store_find(
            pre.store@,
            pre.table_indexs.writable()[p].name.mem_name_spec(),
        ).unwrap();
        &&& merged.fields@ == union_schemas(seq![old_b, batch]).unwrap()
        &&& merged.row_count == old_b.row_count + batch.row_count
        &&& forall|j: int|
            0 <= j < merged.fields@.len() ==> (#[trigger] merged.columns@[j])@ == merged_col(
                seq![old_b, batch],
                merged.fields@[j],
            )
    } else {
        &&& merged.fields@ == union_fields(Seq::<Field>::empty(), batch.fields@).unwrap()
        &&& merged.row_count == batch.row_count
        &&& forall|j: int|
            0 <= j < merged.fields@.len() ==> (#[trigger] merged.columns@[j])@
                == crate::memtable::batch::col_for(batch, merged.fields@[j])
    })
}

/// The storage engine: the registered-table store, per-table size
/// bookkeeping, the generation catalog, and the insertion-ordered
/// list of known prefixes.
pub struct MemTableService {
    pub store: Vec<(String, Batch)>,
    pub table_size: TableSize,
    pub table_indexs: TableIndexs,
    pub prefixes: Vec<String>,
}

impl MemTableService {
    /// The engine's invariant: the catalog keys generations by their
    /// own prefix, every registered batch is sound, every writable
    /// generation's name is registered, and the known-prefix list
    /// mirrors the catalog's writable side.
    pub open spec fn wf(self) -> bool {
        &&& self.table_indexs.wf_keys()
        &&& forall|i: int| 0 <= i < self.store@.len() ==> (#[trigger] self.store@[i]).1.wf()
        &&& forall|p: Seq<char>|
            self.table_indexs.writable().dom().contains(p) ==> store_find(
                self.store@,
                (#[trigger] self.table_indexs.writable()[p]).name.mem_name_spec(),
            ) is Some
        &&& forall|p: Seq<char>|
            #[trigger] prefix_listed(self.prefixes@, p)
                <==> self.table_indexs.writable().dom().contains(p)
    }

    /// A fresh, empty engine.
    pub fn new() -> (r: Self)
        ensures
            r.wf(),
            r.store@.len() == 0,
            r.table_indexs.writable() =~= Map::empty(),
            forall|p: Seq<char>| (#[trigger] r.table_indexs.sealed(p)).len() == 0,
            r.prefixes@.len() == 0,
    {
        let r = MemTableService {
            store: Vec::new(),
            table_size: TableSize::new(),
            table_indexs: TableIndexs::new(),
            prefixes: Vec::new(),
        };
        r
    }

    /// The position of the youngest registration under a name.
    fn store_lookup(&self, name: &String) -> (r: Option<usize>)
        ensures
            match r {
                Some(i) => i < self.store@.len() && self.store@[i as int].0@ == name@
                    && store_find(self.store@, name@) == Some(self.store@[i as int].1),
                None => store_find(self.store@, name@) is None,
            },
    {
        proof {
            vstd::std_specs::vec::axiom_spec_len(&self.store);
        }
        let mut i: usize = self.store.len();
        proof {
            assert(self.store@.take(self.store@.len() as int) =~= self.store@);
        }
        while i > 0
            invariant
                i <= self.store@.len(),
                store_find(self.store@, name@) == store_find(
                    self.store@.take(i as int),
                    name@,
                ),
            decreases i,
        {
            i = i - 1;
            proof {
                assert(self.store@.take(i + 1).drop_last() =~= self.store@.take(i as int));
                assert(self.store@.take(i + 1).last() == self.store@[i as int]);
            }
            if self.store[i].0 == *name {
                return Some(i);
            }
        }
        proof {
            assert(self.store@.take(0) =~= Seq::<(String, Batch)>::empty());
        }
        None
    }
}

impl MemTableService {
    /// Insert one tagged batch at generation time `t`: merge it with
    /// its prefix's writable generation (or with an empty batch of
    /// its own schema when that generation is sealed or absent),
    /// register the merged batch under a fresh identifier, and move
    /// the catalog's writable slot to it. An untagged batch is
    /// rejected with `false` and no effect. Fails with
    /// `SchemaConflict` when one field name carries two types and
    /// with `TooLarge` when the merged rows cannot be counted, in
    /// both cases leaving the engine untouched.
    pub fn insert_batch_at(&mut self, batch: &Batch, t: u64) -> (r: Result<bool, EngineError>)
        requires
            old(self).wf(),
            batch.wf(),
        ensures
            final(self).wf(),
            match r {
                Ok(true) => {
                    &&& batch.table_meta is Some
                    &&& !insert_conflict(*old(self), *batch)
                    &&& !insert_rows_over(*old(self), *batch)
                    &&& inserted_state(*old(self), *final(self), *batch, t)
                },
                Ok(false) => batch.table_meta is None && *final(self) == *old(self),
                Err(EngineError::SchemaConflict) => {
                    &&& batch.table_meta is Some
                    &&& insert_conflict(*old(self), *batch)
                    &&& *final(self) == *old(self)
                },
                Err(EngineError::TooLarge) => {
                    &&& batch.table_meta is Some
                    &&& insert_rows_over(*old(self), *batch)
                    &&& *final(self) == *old(self)
                },
                Err(_) => false,
            },
    {
        let prefix = match batch.table_tag() {
            Some(s) => s.clone(),
            None => {
                return Ok(false);
            },
        };
        let ghost p = prefix@;
        let writable = self.table_indexs.mutables.get_table(&prefix);
        let merge_old = match &writable {
            Some(m) => m.mutable,
            None => false,
        };
        let merged = if merge_old {
            let m = match &writable {
                Some(m) => m,
                None => {
                    proof {
                        assert(false);
                    }
                    return Ok(false);
                },
            };
            let old_mem_table_name = m.name.get_memtable_name();
            let idx = match self.store_lookup(&old_mem_table_name) {
                Some(i) => i,
                None => {
                    proof {
                        assert(false);
                    }
                    return Ok(false);
                },
            };
            let old_batch = &self.store[idx].1;
            let ghost old_b = store_find(
                self.store@,
                self.table_indexs.writable()[p].name.mem_name_spec(),
            ).unwrap();
            if batch.row_count > usize::MAX - old_batch.row_count {
                return Err(EngineError::TooLarge);
            }
            let mut inputs: Vec<&Batch> = Vec::new();
            inputs.push(old_batch);
            inputs.push(batch);
            proof {
                assert(deref_bs(inputs@) =~= seq![old_b, *batch]);
                assert(seq![old_b, *batch].drop_last() =~= seq![old_b]);
                assert(seq![old_b, *batch].last() == *batch);
                assert(seq![old_b].drop_last() =~= Seq::<Batch>::empty());
                assert(seq![old_b].last() == old_b);
                assert(sum_rows(Seq::<Batch>::empty()) == 0);
                assert(sum_rows(seq![old_b]) == old_b.row_count);
                assert(sum_rows(seq![old_b, *batch]) == old_b.row_count + batch.row_count);
            }
            match merge_batches(&inputs) {
                Ok(b) => b,
                Err(e) => {
                    return Err(e);
                },
            }
        } else {
            let empty_batch = Batch::new_empty(
                crate::memtable::batch::duplicate_fields(&batch.fields),
            );
            let mut inputs: Vec<&Batch> = Vec::new();
            inputs.push(batch);
            inputs.push(&empty_batch);
            proof {
                assert(deref_bs(inputs@) =~= seq![*batch, empty_batch]);
                assert(seq![*batch, empty_batch].drop_last() =~= seq![*batch]);
                assert(seq![*batch, empty_batch].last() == empty_batch);
                assert(seq![*batch].drop_last() =~= Seq::<Batch>::empty());
                assert(seq![*batch].last() == *batch);
                assert(sum_rows(Seq::<Batch>::empty()) == 0);
                assert(sum_rows(seq![*batch]) == batch.row_count);
                assert(sum_rows(seq![*batch, empty_batch]) == batch.row_count);
            }
            let merged = match merge_batches(&inputs) {
                Ok(b) => b,
                Err(e) => {
                    proof {
                        lemma_union_with_self_schema(*batch, empty_batch);
                    }
                    return Err(e);
                },
            };
            proof {
                lemma_union_with_self_schema(*batch, empty_batch);
                assert forall|j: int| 0 <= j < merged.fields@.len() implies (
                #[trigger] merged.columns@[j])@ == crate::memtable::batch::col_for(
                    *batch,
                    merged.fields@[j],
                ) by {
                    crate::memtable::batch::lemma_merge_with_empty(
                        *batch,
                        empty_batch,
                        merged.fields@[j],
                    );
                };
            }
            merged
        };
        let new_table_name = TableName::new_with_time(prefix.as_str(), t);
        let mem_table = match MemTable::new_with_batch(&new_table_name, &merged) {
            Ok(m) => m,
            Err(_) => {
                proof {
                    assert(false);
                }
                return Ok(false);
            },
        };
        let mem_name = new_table_name.get_memtable_name();
        proof {
            reveal_strlit("-");
            assert(mem_name@ =~= gen_name(p, t));
        }
        let ghost store_before = self.store@;
        self.store.push((mem_name, merged));
        proof {
            assert(self.store@.drop_last() =~= store_before);
        }
        if !self.table_indexs.contains_key(&prefix) {
            let ghost prefixes_before = self.prefixes@;
            self.prefixes.push(prefix.clone());
            proof {
                assert forall|q: Seq<char>| #[trigger]
                    prefix_listed(self.prefixes@, q) implies (prefix_listed(prefixes_before, q)
                    || q == p) by {
                    let i = choose|i: int|
                        0 <= i < self.prefixes@.len() && (#[trigger] self.prefixes@[i])@ == q;
                    if i < prefixes_before.len() {
                        assert(prefix_listed(prefixes_before, q));
                    }
                };
                assert forall|q: Seq<char>|
                    prefix_listed(prefixes_before, q) || q == p implies #[trigger] prefix_listed(
                    self.prefixes@,
                    q,
                ) by {
                    if prefix_listed(prefixes_before, q) {
                        let i = choose|i: int|
                            0 <= i < prefixes_before.len() && (#[trigger] prefixes_before[i])@
                                == q;
                        assert(self.prefixes@[i]@ == q);
                    } else {
                        assert(self.prefixes@[self.prefixes@.len() - 1]@ == q);
                    }
                };
            }
        }
        self.table_indexs.insert(mem_table);
        proof {
            assert forall|q: Seq<char>|
                self.table_indexs.writable().dom().contains(q) implies store_find(
                self.store@,
                (#[trigger] self.table_indexs.writable()[q]).name.mem_name_spec(),
            ) is Some by {
                lemma_store_find_push(
                    store_before,
                    (self.store@.last().0, self.store@.last().1),
                    self.table_indexs.writable()[q].name.mem_name_spec(),
                );
                assert(self.store@ =~= store_before.push(self.store@.last()));
            };
            assert forall|n: Seq<char>| n != gen_name(p, t) implies store_find(self.store@, n)
                == store_find(store_before, n) by {
                lemma_store_find_push(store_before, (self.store@.last().0, self.store@.last().1), n);
                assert(self.store@ =~= store_before.push(self.store@.last()));
            };
        }
        Ok(true)
    }
}

/// The union of a schema with an empty batch over the same schema is
/// the union of the schema with itself folded once: the second pass
/// adds nothing and conflicts exactly when the first does.
pub proof fn lemma_union_with_self_schema(b: Batch, e: Batch)
    requires
        e.fields@ == b.fields@,
    ensures
        union_schemas(seq![b, e]) == (match union_fields(Seq::<Field>::empty(), b.fields@) {
            Some(u) => union_fields(u, b.fields@),
            None => None::<Seq<Field>>,
        }),
        (match union_fields(Seq::<Field>::empty(), b.fields@) {
            Some(u) => union_fields(u, b.fields@) == Some(u),
            None => true,
        }),
{
    let bs = seq![b, e];
    assert(bs.drop_last() =~= seq![b]);
    assert(bs.last() == e);
    assert(seq![b].drop_last() =~= Seq::<Batch>::empty());
    assert(seq![b].last() == b);
    assert(union_schemas(Seq::<Batch>::empty()) == Some(Seq::<Field>::empty()));
    assert(union_schemas(seq![b]) == union_fields(Seq::<Field>::empty(), b.fields@));
    assert(e.fields@ == b.fields@);
    match union_fields(Seq::<Field>::empty(), b.fields@) {
        Some(u) => {
            assert(union_schemas(bs) == union_fields(u, b.fields@));
            lemma_union_refold(Seq::<Field>::empty(), b.fields@, u);
        },
        None => {
            assert(union_schemas(bs) is None);
        },
    }
}

/// Folding a schema into a union that already came from folding it
/// leaves the union unchanged: every field is already present with
/// its own type.
pub proof fn lemma_union_refold(acc: Seq<Field>, fs: Seq<Field>, u: Seq<Field>)
    requires
        union_fields(acc, fs) == Some(u),
    ensures
        union_fields(u, fs) == Some(u),
{
    lemma_union_member_after_fold(acc, fs, u);
    lemma_union_refold_partial(u, fs);
}

/// After folding, every folded field stands in the union under its
/// own type.
pub proof fn lemma_union_member_after_fold(acc: Seq<Field>, fs: Seq<Field>, u: Seq<Field>)
    requires
        union_fields(acc, fs) == Some(u),
    ensures
        forall|k: int|
            0 <= k < fs.len() ==> field_present(u, #[trigger] fs[k]),
    decreases fs.len(),
{
    if fs.len() > 0 {
        let fs0 = fs.drop_last();
        let f = fs.last();
        let u0 = union_fields(acc, fs0).unwrap();
        lemma_union_member_after_fold(acc, fs0, u0);
        lemma_union_one_extends(u0, f, u);
        assert forall|k: int| 0 <= k < fs.len() implies field_present(u, #[trigger] fs[k]) by {
            if k < fs.len() - 1 {
                assert(fs0[k] == fs[k]);
                assert(field_present(u0, fs[k]));
                assert(field_present(u, fs[k]));
            } else {
                assert(fs[k] == f);
            }
        };
    }
}

/// A name stands in a schema with its type.
pub open spec fn field_present(u: Seq<Field>, f: Field) -> bool {
    let i = crate::memtable::batch::find_by_name(u, f.name@);
    i < u.len() && u[i].dtype == f.dtype
}

/// Folding one field into a union where it is already present leaves
/// the union unchanged.
pub proof fn lemma_union_one_member(u: Seq<Field>, f: Field, u2: Seq<Field>)
    requires
        field_present(u, f),
        crate::memtable::batch::union_one(u, f) == Some(u2),
    ensures
        u2 == u,
{
    crate::memtable::batch::lemma_find_by_name_props(u, f.name@);
}

/// Folding one field keeps everything that was already present, and
/// makes the field itself present.
pub proof fn lemma_union_one_extends(u: Seq<Field>, f: Field, u2: Seq<Field>)
    requires
        crate::memtable::batch::union_one(u, f) == Some(u2),
    ensures
        field_present(u2, f),
        forall|g: Field| field_present(u, g) ==> field_present(u2, g),
{
    crate::memtable::batch::lemma_find_by_name_props(u, f.name@);
    let i = crate::memtable::batch::find_by_name(u, f.name@);
    if i == u.len() {
        assert(u2 == u.push(f));
        lemma_present_self_push(u, f);
        assert(field_present(u2, f));
        assert forall|g: Field| field_present(u, g) implies field_present(u2, g) by {
            lemma_present_push(u, f, g);
        };
    } else {
        assert(u2 == u);
        assert(field_present(u2, f));
        assert forall|g: Field| field_present(u, g) implies field_present(u2, g) by {};
    }
}

/// A field that stands in a schema still stands there after a push.
pub proof fn lemma_present_push(u: Seq<Field>, f: Field, g: Field)
    requires
        field_present(u, g),
    ensures
        field_present(u.push(f), g),
    decreases u.len(),
{
    crate::memtable::batch::lemma_find_by_name_props(u, g.name@);
    let i = crate::memtable::batch::find_by_name(u, g.name@);
    assert(u.len() > 0);
    if u[0].name@ == g.name@ {
        assert(u.push(f)[0] == u[0]);
        assert(crate::memtable::batch::find_by_name(u.push(f), g.name@) == 0);
    } else {
        assert(u.push(f)[0] == u[0]);
        assert(u.push(f).drop_first() =~= u.drop_first().push(f));
        assert(crate::memtable::batch::find_by_name(u, g.name@) == 1
            + crate::memtable::batch::find_by_name(u.drop_first(), g.name@));
        assert(u.drop_first()[i - 1] == u[i]);
        assert(field_present(u.drop_first(), g));
        lemma_present_push(u.drop_first(), f, g);
        crate::memtable::batch::lemma_find_by_name_props(u.drop_first().push(f), g.name@);
    }
}

/// A field whose name is absent from a schema stands exactly at the
/// end after being pushed.
pub proof fn lemma_present_self_push(u: Seq<Field>, f: Field)
    requires
        crate::memtable::batch::find_by_name(u, f.name@) == u.len(),
    ensures
        crate::memtable::batch::find_by_name(u.push(f), f.name@) == u.len(),
        field_present(u.push(f), f),
    decreases u.len(),
{
    if u.len() == 0 {
        assert(u.push(f)[0] == f);
    } else {
        crate::memtable::batch::lemma_find_by_name_props(u, f.name@);
        assert(u[0].name@ != f.name@);
        assert(u.push(f)[0] == u[0]);
        assert(u.push(f).drop_first() =~= u.drop_first().push(f));
        assert(crate::memtable::batch::find_by_name(u, f.name@) == 1
            + crate::memtable::batch::find_by_name(u.drop_first(), f.name@));
        lemma_present_self_push(u.drop_first(), f);
    }
}

/// Folding fields that are all already present changes nothing.
pub proof fn lemma_union_refold_partial(u: Seq<Field>, fs: Seq<Field>)
    requires
        forall|k: int| 0 <= k < fs.len() ==> field_present(u, #[trigger] fs[k]),
    ensures
        union_fields(u, fs) == Some(u),
    decreases fs.len(),
{
    if fs.len() > 0 {
        assert(forall|k: int|
            0 <= k < fs.drop_last().len() ==> field_present(u, #[trigger] fs.drop_last()[k]));
        lemma_union_refold_partial(u, fs.drop_last());
        crate::memtable::batch::lemma_find_by_name_props(u, fs.last().name@);
        assert(field_present(u, fs.last()));
    }
}


/// What one insert at time `t` leaves behind, and whether the batch
/// was accepted: an untagged batch is rejected without effect; a
/// schema conflict or an uncountable merge leaves the engine
/// untouched; otherwise the batch is accepted and `inserted_state`
/// describes the new engine.
pub open spec fn insert_step(
    pre: MemTableService,
    batch: Batch,
    t: u64,
    post: MemTableService,
    accepted: bool,
) -> bool {
    if batch.table_meta is None {
        &&& post == pre
        &&& !accepted
    } else if insert_conflict(pre, batch) || insert_rows_over(pre, batch) {
        &&& post == pre
        &&& !accepted
    } else {
        &&& inserted_state(pre, post, batch, t)
        &&& accepted
    }
}

/// A step-by-step run of inserts: `sts` lists the engine states the
/// run passes through, `ts` the clock stamp and `oks` the acceptance
/// of each batch, and every step follows `insert_step`.
pub open spec fn run_steps(
    pre: MemTableService,
    batches: Seq<Batch>,
    sts: Seq<MemTableService>,
    ts: Seq<u64>,
    oks: Seq<bool>,
    post: MemTableService,
) -> bool {
    &&& sts.len() == batches.len() + 1
    &&& ts.len() == batches.len()
    &&& oks.len() == batches.len()
    &&& sts[0] == pre
    &&& sts.last() == post
    &&& forall|i: int|
        0 <= i < batches.len() ==> #[trigger] insert_step(sts[i], batches[i], ts[i], sts[i + 1], oks[i])
}

impl MemTableService {
    /// Insert one tagged batch, stamping the fresh generation with
    /// the clock's current reading.
    pub fn insert_batch(&mut self, batch: &Batch) -> (r: Result<bool, EngineError>)
        requires
            old(self).wf(),
            batch.wf(),
        ensures
            final(self).wf(),
            match r {
                Ok(true) => {
                    &&& batch.table_meta is Some
                    &&& !insert_conflict(*old(self), *batch)
                    &&& !insert_rows_over(*old(self), *batch)
                    &&& exists|t: u64| inserted_state(*old(self), *final(self), *batch, t)
                },
                Ok(false) => batch.table_meta is None && *final(self) == *old(self),
                Err(EngineError::SchemaConflict) => {
                    &&& batch.table_meta is Some
                    &&& insert_conflict(*old(self), *batch)
                    &&& *final(self) == *old(self)
                },
                Err(EngineError::TooLarge) => {
                    &&& batch.table_meta is Some
                    &&& insert_rows_over(*old(self), *batch)
                    &&& *final(self) == *old(self)
                },
                Err(_) => false,
            },
    {
        let t = crate::utils::time_utils::now() as u64;
        self.insert_batch_at(batch, t)
    }

    /// Insert a whole list of batches, one after the other, and
    /// report whether every one of them was accepted. A rejection
    /// does not stop the run: the remaining batches are still
    /// inserted, and only the collected reply records the failure.
    pub fn batch_insert(&mut self, batches: &Vec<Batch>) -> (ok: bool)
        requires
            old(self).wf(),
            forall|i: int| 0 <= i < batches@.len() ==> (#[trigger] batches@[i]).wf(),
        ensures
            final(self).wf(),
            exists|sts: Seq<MemTableService>, ts: Seq<u64>, oks: Seq<bool>|
                #![trigger run_steps(*old(self), batches@, sts, ts, oks, *final(self))]
                {
                    &&& run_steps(*old(self), batches@, sts, ts, oks, *final(self))
                    &&& ok == (forall|k: int| 0 <= k < oks.len() ==> oks[k] == true)
                },
    {
        proof {
            vstd::std_specs::vec::axiom_spec_len(batches);
        }
        let ghost mut sts: Seq<MemTableService> = seq![*self];
        let ghost mut ts: Seq<u64> = Seq::empty();
        let ghost mut oks: Seq<bool> = Seq::empty();
        let mut ok = true;
        let mut i: usize = 0;
        while i < batches.len()
            invariant
                i <= batches@.len(),
                batches@.len() <= usize::MAX,
                self.wf(),
                forall|k: int| 0 <= k < batches@.len() ==> (#[trigger] batches@[k]).wf(),
                sts.len() == i + 1,
                ts.len() == i,
                oks.len() == i,
                sts[0] == *old(self),
                sts.last() == *self,
                forall|k: int|
                    0 <= k < i ==> #[trigger] insert_step(
                        sts[k],
                        batches@[k],
                        ts[k],
                        sts[k + 1],
                        oks[k],
                    ),
                ok == (forall|k: int| 0 <= k < i ==> oks[k] == true),
            decreases batches@.len() - i,
        {
            let ghost pre_i = *self;
            let resp = self.insert_batch(&batches[i]);
            let accepted = match resp {
                Ok(true) => true,
                _ => false,
            };
            proof {
                let b = batches@[i as int];
                let t: u64 = match resp {
                    Ok(true) => choose|t: u64| inserted_state(pre_i, *self, b, t),
                    _ => 0,
                };
                assert(insert_step(pre_i, b, t, *self, accepted));
                let ghost sts0 = sts;
                let ghost ts0 = ts;
                let ghost oks0 = oks;
                sts = sts0.push(*self);
                ts = ts0.push(t);
                oks = oks0.push(accepted);
                assert forall|k: int| 0 <= k < i + 1 implies #[trigger] insert_step(
                    sts[k],
                    batches@[k],
                    ts[k],
                    sts[k + 1],
                    oks[k],
                ) by {
                    if k < i {
                        assert(sts[k] == sts0[k]);
                        assert(sts[k + 1] == sts0[k + 1]);
                        assert(ts[k] == ts0[k]);
                        assert(oks[k] == oks0[k]);
                        assert(insert_step(sts0[k], batches@[k], ts0[k], sts0[k + 1], oks0[k]));
                    } else {
                        assert(sts[k] == pre_i);
                        assert(sts[k + 1] == *self);
                        assert(ts[k] == t);
                        assert(oks[k] == accepted);
                    }
                };
                assert((ok && accepted) == (forall|k: int|
                    0 <= k < i + 1 ==> oks[k] == true)) by {
                    if ok && accepted {
                        assert forall|k: int| 0 <= k < i + 1 implies oks[k] == true by {
                            if k < i {
                                assert(oks[k] == oks0[k]);
                            } else {
                                assert(oks[k] == accepted);
                            }
                        };
                    } else if !ok {
                        assert(!(forall|k: int| 0 <= k < i ==> oks0[k] == true));
                        let w = choose|k: int| 0 <= k < i && oks0[k] != true;
                        assert(oks[w] == oks0[w]);
                        assert(oks[w] != true);
                    } else {
                        assert(oks[i as int] == accepted);
                        assert(oks[i as int] != true);
                    }
                };
            }
            ok = ok && accepted;
            i = i + 1;
        }
        proof {
            assert(run_steps(*old(self), batches@, sts, ts, oks, *self));
        }
        ok
    }

    /// The batch registered under an in-memory table name. Fails with
    /// `NotFound` when nothing was registered under it.
    pub fn query_with_table(&self, table_mem_name: &String) -> (r: Result<Vec<Batch>, EngineError>)
        ensures
            match r {
                Ok(v) => {
                    &&& store_find(self.store@, table_mem_name@) is Some
                    &&& v@.len() == 1
                    &&& batch_equiv(v@[0], store_find(self.store@, table_mem_name@).unwrap())
                },
                Err(e) => e == EngineError::NotFound && store_find(
                    self.store@,
                    table_mem_name@,
                ) is None,
            },
    {
        match self.store_lookup(table_mem_name) {
            Some(i) => {
                let mut v: Vec<Batch> = Vec::new();
                v.push(self.store[i].1.duplicate());
                Ok(v)
            },
            None => Err(EngineError::NotFound),
        }
    }

    /// Every batch registered for a prefix: its sealed generations and
    /// its writable one, in catalog order, skipping identifiers whose
    /// registration is missing.
    pub fn query_with_table_prefix(&self, table_prefix_name: &String) -> (r: Vec<Batch>)
        ensures
            r@.len() == gather(self.store@, names_for(*self, table_prefix_name@)).len(),
            forall|i: int|
                0 <= i < r@.len() ==> batch_equiv(
                    #[trigger] r@[i],
                    gather(self.store@, names_for(*self, table_prefix_name@))[i],
                ),
    {
        let table_names = self.table_indexs.get_tables_with_prefix(table_prefix_name);
        let ghost names = names_for(*self, table_prefix_name@);
        proof {
            vstd::std_specs::vec::axiom_spec_len(&table_names);
            assert(table_names@ =~= names);
            assert(names.take(0) =~= Seq::<TableName>::empty());
        }
        let mut resp: Vec<Batch> = Vec::new();
        let mut i: usize = 0;
        while i < table_names.len()
            invariant
                i <= table_names@.len(),
                table_names@.len() <= usize::MAX,
                table_names@ == names,
                resp@.len() == gather(self.store@, names.take(i as int)).len(),
                forall|k: int|
                    0 <= k < resp@.len() ==> batch_equiv(
                        #[trigger] resp@[k],
                        gather(self.store@, names.take(i as int))[k],
                    ),
            decreases table_names@.len() - i,
        {
            let table_name = table_names[i].get_memtable_name();
            proof {
                lemma_gather_take_step(self.store@, names, i as int);
            }
            match self.store_lookup(&table_name) {
                Some(idx) => {
                    resp.push(self.store[idx].1.duplicate());
                },
                None => {},
            }
            i = i + 1;
        }
        proof {
            assert(names.take(names.len() as int) =~= names);
        }
        resp
    }

    /// Every table identifier the engine knows: for each prefix in
    /// first-insert order, its sealed generations and then its
    /// writable one.
    pub fn tables(&self) -> (r: Result<Vec<TableName>, EngineError>)
        ensures
            match r {
                Ok(v) => v@ == all_names(*self, self.prefixes@),
                Err(_) => false,
            },
    {
        proof {
            vstd::std_specs::vec::axiom_spec_len(&self.prefixes);
            assert(self.prefixes@.take(0) =~= Seq::<String>::empty());
        }
        let mut r: Vec<TableName> = Vec::new();
        let mut i: usize = 0;
        while i < self.prefixes.len()
            invariant
                i <= self.prefixes@.len(),
                self.prefixes@.len() <= usize::MAX,
                r@ == all_names(*self, self.prefixes@.take(i as int)),
            decreases self.prefixes@.len() - i,
        {
            let mut names = self.table_indexs.get_tables_with_prefix(&self.prefixes[i]);
            let ghost prev = r@;
            proof {
                vstd::std_specs::vec::axiom_spec_len(&names);
                assert(names@ =~= names_for(*self, self.prefixes@[i as int]@));
            }
            let mut j: usize = 0;
            while j < names.len()
                invariant
                    j <= names@.len(),
                    names@.len() <= usize::MAX,
                    r@ == prev + names@.take(j as int),
                decreases names@.len() - j,
            {
                r.push(names[j].duplicate());
                proof {
                    assert(r@ =~= prev + names@.take(j + 1));
                }
                j = j + 1;
            }
            proof {
                assert(names@.take(names@.len() as int) =~= names@);
                assert(self.prefixes@.take(i + 1).drop_last() =~= self.prefixes@.take(i as int));
                assert(self.prefixes@.take(i + 1).last() == self.prefixes@[i as int]);
            }
            i = i + 1;
        }
        proof {
            assert(self.prefixes@.take(self.prefixes@.len() as int) =~= self.prefixes@);
        }
        Ok(r)
    }
}

/// Every identifier known under a list of prefixes, prefix by prefix.
pub open spec fn all_names(s: MemTableService, ps: Seq<String>) -> Seq<TableName>
    decreases ps.len(),
{
    if ps.len() == 0 {
        Seq::empty()
    } else {
        all_names(s, ps.drop_last()) + names_for(s, ps.last()@)
    }
}


} // verus!
