//! Columnar batches, modelled exactly: a schema of named, typed
//! fields, one column of values per field, and an optional table-name
//! tag. The schema-reconciling merge lives here: the union of all
//! input schemas, null-filled columns for missing fields, and
//! column-wise concatenation in batch order.

use vstd::prelude::*;
use vstd::string::*;

use crate::memtable::EngineError;

verus! {

/// The value type of one column.
#[derive(Debug, Clone, Copy, PartialEq, Eq, Structural)]
pub enum DataType {
    Int32,
    Int64,
    UInt64,
    Utf8,
}

/// One cell: a typed value or a null.
#[derive(Debug, Clone, PartialEq)]
pub enum Value {
    Null,
    Int32(i32),
    Int64(i64),
    UInt64(u64),
    Utf8(String),
}

/// Whether a cell may stand in a column of the given type.
pub open spec fn value_fits(v: Value, t: DataType) -> bool {
    match v {
        Value::Null => true,
        Value::Int32(_) => t == DataType::Int32,
        Value::Int64(_) => t == DataType::Int64,
        Value::UInt64(_) => t == DataType::UInt64,
        Value::Utf8(_) => t == DataType::Utf8,
    }
}

/// The byte footprint charged for one cell.
pub open spec fn value_size(v: Value) -> int {
    match v {
        Value::Null => 1,
        Value::Int32(_) => 4,
        Value::Int64(_) => 8,
        Value::UInt64(_) => 8,
        Value::Utf8(s) => s@.len() as int,
    }
}

/// One schema entry: a column name and its value type.
#[derive(Debug, Clone, PartialEq)]
pub struct Field {
    pub name: String,
    pub dtype: DataType,
}

impl Field {
    /// Two fields are the same entry when name and type agree.
    pub open spec fn same(self, other: Field) -> bool {
        self.name@ == other.name@ && self.dtype == other.dtype
    }

    /// Build a field.
    pub fn new(name: &str, dtype: DataType) -> (r: Field)
        ensures
            r.name@ == name@,
            r.dtype == dtype,
    {
        Field { name: String::from_str(name), dtype }
    }

    /// An exact copy of this field.
    pub fn duplicate(&self) -> (r: Field)
        ensures
            r == *self,
    {
        Field { name: self.name.clone(), dtype: self.dtype }
    }

    /// Whether this field is the same entry as another.
    pub fn same_field(&self, other: &Field) -> (r: bool)
        ensures
            r == self.same(*other),
    {
        let dt = match (self.dtype, other.dtype) {
            (DataType::Int32, DataType::Int32) => true,
            (DataType::Int64, DataType::Int64) => true,
            (DataType::UInt64, DataType::UInt64) => true,
            (DataType::Utf8, DataType::Utf8) => true,
            _ => false,
        };
        dt && self.name == other.name
    }
}

/// One columnar batch: fields, one column per field, the row count,
/// and the optional table-name tag carried in its metadata.
#[derive(Debug, Clone, PartialEq)]
pub struct Batch {
    pub fields: Vec<Field>,
    pub columns: Vec<Vec<Value>>,
    pub row_count: usize,
    pub table_meta: Option<String>,
}

impl Batch {
    /// A sound batch: one column per field, every column as long as
    /// the row count, every cell fitting its column's type.
    pub open spec fn wf(self) -> bool {
        &&& self.columns@.len() == self.fields@.len()
        &&& forall|i: int|
            0 <= i < self.columns@.len() ==> (#[trigger] self.columns@[i])@.len()
                == self.row_count
        &&& forall|i: int, j: int|
            0 <= i < self.columns@.len() && 0 <= j < self.row_count ==> value_fits(
                #[trigger] self.columns@[i]@[j],
                self.fields@[i].dtype,
            )
    }

    /// The index of the first field that is the same entry as `f`, or
    /// the field count when there is none.
    pub open spec fn find_field(fs: Seq<Field>, f: Field) -> int
        decreases fs.len(),
    {
        if fs.len() == 0 {
            0
        } else if fs[0].same(f) {
            0
        } else {
            1 + Self::find_field(fs.drop_first(), f)
        }
    }

    /// Whether the batch's schema holds the field, by name and type.
    pub open spec fn has_field(self, f: Field) -> bool {
        Self::find_field(self.fields@, f) < self.fields@.len()
    }

    /// Whether columns and fields line up: one column per field, each
    /// as long as the row count, each cell fitting its column's type.
    pub open spec fn shape_ok(fields: Seq<Field>, columns: Seq<Vec<Value>>, row_count: usize) -> bool {
        &&& columns.len() == fields.len()
        &&& forall|i: int| 0 <= i < columns.len() ==> (#[trigger] columns[i])@.len() == row_count
        &&& forall|i: int, j: int|
            0 <= i < columns.len() && 0 <= j < row_count ==> value_fits(
                #[trigger] columns[i]@[j],
                fields[i].dtype,
            )
    }

    /// Build a batch, checking that columns and fields line up.
    /// Fails with `SchemaConflict` exactly when they do not.
    pub fn try_new(
        fields: Vec<Field>,
        columns: Vec<Vec<Value>>,
        row_count: usize,
        table_meta: Option<String>,
    ) -> (r: Result<Batch, EngineError>)
        ensures
            match r {
                Ok(b) => {
                    &&& b.wf()
                    &&& b.fields@ == fields@
                    &&& b.columns@ == columns@
                    &&& b.row_count == row_count
                    &&& b.table_meta == table_meta
                },
                Err(e) => e == EngineError::SchemaConflict,
            },
            Self::shape_ok(fields@, columns@, row_count) ==> r is Ok,
    {
        proof {
            vstd::std_specs::vec::axiom_spec_len(&fields);
            vstd::std_specs::vec::axiom_spec_len(&columns);
        }
        if columns.len() != fields.len() {
            return Err(EngineError::SchemaConflict);
        }
        let mut i: usize = 0;
        while i < columns.len()
            invariant
                i <= columns@.len(),
                columns@.len() == fields@.len(),
                columns@.len() <= usize::MAX,
                forall|k: int| 0 <= k < i ==> (#[trigger] columns@[k])@.len() == row_count,
                forall|k: int, j: int|
                    0 <= k < i && 0 <= j < row_count ==> value_fits(
                        #[trigger] columns@[k]@[j],
                        fields@[k].dtype,
                    ),
            decreases columns@.len() - i,
        {
            let col = &columns[i];
            proof {
                vstd::std_specs::vec::axiom_spec_len(col);
            }
            if col.len() != row_count {
                proof {
                    assert(!Self::shape_ok(fields@, columns@, row_count)) by {
                        if Self::shape_ok(fields@, columns@, row_count) {
                            assert(columns@[i as int]@.len() == row_count);
                        }
                    };
                }
                return Err(EngineError::SchemaConflict);
            }
            let dtype = fields[i].dtype;
            let mut j: usize = 0;
            while j < col.len()
                invariant
                    j <= col@.len(),
                    col@.len() == row_count,
                    col@.len() <= usize::MAX,
                    col == &columns@[i as int],
                    i < columns@.len(),
                    dtype == fields@[i as int].dtype,
                    forall|k: int| 0 <= k < j ==> value_fits(#[trigger] col@[k], dtype),
                decreases col@.len() - j,
            {
                let fits = match (&col[j], dtype) {
                    (Value::Null, _) => true,
                    (Value::Int32(_), DataType::Int32) => true,
                    (Value::Int64(_), DataType::Int64) => true,
                    (Value::UInt64(_), DataType::UInt64) => true,
                    (Value::Utf8(_), DataType::Utf8) => true,
                    _ => false,
                };
                if !fits {
                    proof {
                        assert(!Self::shape_ok(fields@, columns@, row_count)) by {
                            if Self::shape_ok(fields@, columns@, row_count) {
                                assert(value_fits(columns@[i as int]@[j as int], fields@[i as int].dtype));
                            }
                        };
                    }
                    return Err(EngineError::SchemaConflict);
                }
                j = j + 1;
            }
            i = i + 1;
        }
        Ok(Batch { fields, columns, row_count, table_meta })
    }

    /// An empty batch over the given schema: zero rows, one empty
    /// column per field, no tag.
    pub fn new_empty(fields: Vec<Field>) -> (r: Batch)
        ensures
            r.wf(),
            r.fields@ == fields@,
            r.row_count == 0,
            r.table_meta is None,
    {
        proof {
            vstd::std_specs::vec::axiom_spec_len(&fields);
        }
        let mut columns: Vec<Vec<Value>> = Vec::new();
        let mut i: usize = 0;
        while i < fields.len()
            invariant
                i <= fields@.len(),
                fields@.len() <= usize::MAX,
                columns@.len() == i,
                forall|k: int| 0 <= k < i ==> (#[trigger] columns@[k])@.len() == 0,
            decreases fields@.len() - i,
        {
            columns.push(Vec::new());
            i = i + 1;
        }
        Batch { fields, columns, row_count: 0, table_meta: None }
    }

    /// A schema-less batch that only counts rows, as a merge over an
    /// empty union schema degenerates to.
    pub fn rows_only(row_count: usize) -> (r: Batch)
        ensures
            r.wf(),
            r.fields@.len() == 0,
            r.row_count == row_count,
            r.table_meta is None,
    {
        Batch { fields: Vec::new(), columns: Vec::new(), row_count, table_meta: None }
    }

    /// The table-name tag carried in the batch's metadata, if any.
    pub fn table_tag(&self) -> (r: Option<&String>)
        ensures
            match r {
                Some(s) => self.table_meta == Some(*s),
                None => self.table_meta is None,
            },
    {
        match &self.table_meta {
            Some(s) => Some(s),
            None => None,
        }
    }
}

/// The byte footprint charged for one column.
pub open spec fn col_size(col: Seq<Value>) -> int
    decreases col.len(),
{
    if col.len() == 0 {
        0
    } else {
        col_size(col.drop_last()) + value_size(col.last())
    }
}

/// The byte footprint charged for a batch: the sum over its columns.
pub open spec fn batch_size_spec(b: Batch) -> int {
    cols_size(b.columns@)
}

pub open spec fn cols_size(cols: Seq<Vec<Value>>) -> int
    decreases cols.len(),
{
    if cols.len() == 0 {
        0
    } else {
        cols_size(cols.drop_last()) + col_size(cols.last()@)
    }
}

pub proof fn lemma_col_size_nonneg(col: Seq<Value>)
    ensures
        col_size(col) >= 0,
    decreases col.len(),
{
    if col.len() > 0 {
        lemma_col_size_nonneg(col.drop_last());
    }
}

pub proof fn lemma_cols_size_nonneg(cols: Seq<Vec<Value>>)
    ensures
        cols_size(cols) >= 0,
    decreases cols.len(),
{
    if cols.len() > 0 {
        lemma_cols_size_nonneg(cols.drop_last());
        lemma_col_size_nonneg(cols.last()@);
    }
}

/// The byte footprint of a batch, saturating at `usize::MAX`.
pub fn batch_size(batch: &Batch) -> (r: usize)
    ensures
        batch_size_spec(*batch) <= usize::MAX ==> r == batch_size_spec(*batch),
        batch_size_spec(*batch) > usize::MAX ==> r == usize::MAX,
{
    proof {
        vstd::std_specs::vec::axiom_spec_len(&batch.columns);
    }
    let mut size: usize = 0;
    let mut i: usize = 0;
    proof {
        assert(batch.columns@.take(0) =~= Seq::<Vec<Value>>::empty());
    }
    while i < batch.columns.len()
        invariant
            i <= batch.columns@.len(),
            batch.columns@.len() <= usize::MAX,
            cols_size(batch.columns@.take(i as int)) <= usize::MAX ==> size == cols_size(
                batch.columns@.take(i as int),
            ),
            cols_size(batch.columns@.take(i as int)) > usize::MAX ==> size == usize::MAX,
        decreases batch.columns@.len() - i,
    {
        let col = &batch.columns[i];
        proof {
            vstd::std_specs::vec::axiom_spec_len(col);
        }
        let mut j: usize = 0;
        proof {
            assert(col@.take(0) =~= Seq::<Value>::empty());
        }
        while j < col.len()
            invariant
                j <= col@.len(),
                col@.len() <= usize::MAX,
                col == &batch.columns@[i as int],
                i < batch.columns@.len(),
                cols_size(batch.columns@.take(i as int)) + col_size(col@.take(j as int))
                    <= usize::MAX ==> size == cols_size(batch.columns@.take(i as int)) + col_size(
                    col@.take(j as int),
                ),
                cols_size(batch.columns@.take(i as int)) + col_size(col@.take(j as int))
                    > usize::MAX ==> size == usize::MAX,
                cols_size(batch.columns@.take(i as int)) >= 0,
                col_size(col@.take(j as int)) >= 0,
            decreases col@.len() - j,
        {
            let vs: usize = match &col[j] {
                Value::Null => 1,
                Value::Int32(_) => 4,
                Value::Int64(_) => 8,
                Value::UInt64(_) => 8,
                Value::Utf8(s) => s.as_str().unicode_len(),
            };
            proof {
                assert(col@.take(j + 1).drop_last() =~= col@.take(j as int));
                assert(col@.take(j + 1).last() == col@[j as int]);
                lemma_col_size_nonneg(col@.take(j as int));
            }
            size = size.saturating_add(vs);
            j = j + 1;
        }
        proof {
            assert(col@.take(col@.len() as int) =~= col@);
            assert(batch.columns@.take(i + 1).drop_last() =~= batch.columns@.take(i as int));
            assert(batch.columns@.take(i + 1).last() == batch.columns@[i as int]);
        }
        i = i + 1;
    }
    proof {
        assert(batch.columns@.take(batch.columns@.len() as int) =~= batch.columns@);
    }
    size
}

impl Value {
    /// An exact copy of this cell.
    pub fn duplicate(&self) -> (r: Value)
        ensures
            r == *self,
    {
        match self {
            Value::Null => Value::Null,
            Value::Int32(v) => Value::Int32(*v),
            Value::Int64(v) => Value::Int64(*v),
            Value::UInt64(v) => Value::UInt64(*v),
            Value::Utf8(s) => Value::Utf8(s.clone()),
        }
    }
}

/// The index of the first field with this name, or the field count.
pub open spec fn find_by_name(fs: Seq<Field>, name: Seq<char>) -> int
    decreases fs.len(),
{
    if fs.len() == 0 {
        0
    } else if fs[0].name@ == name {
        0
    } else {
        1 + find_by_name(fs.drop_first(), name)
    }
}

pub proof fn lemma_find_by_name_props(fs: Seq<Field>, name: Seq<char>)
    ensures
        0 <= find_by_name(fs, name) <= fs.len(),
        find_by_name(fs, name) < fs.len() ==> fs[find_by_name(fs, name)].name@ == name,
        forall|k: int| 0 <= k < find_by_name(fs, name) ==> fs[k].name@ != name,
    decreases fs.len(),
{
    if fs.len() > 0 && fs[0].name@ != name {
        lemma_find_by_name_props(fs.drop_first(), name);
        assert forall|k: int| 0 <= k < find_by_name(fs, name) implies fs[k].name@ != name by {
            if k > 0 {
                assert(fs[k] == fs.drop_first()[k - 1]);
            }
        };
    }
}

pub proof fn lemma_find_by_name_shift(fs: Seq<Field>, name: Seq<char>, i: int)
    requires
        0 <= i <= fs.len(),
        forall|k: int| 0 <= k < i ==> (#[trigger] fs[k]).name@ != name,
    ensures
        find_by_name(fs, name) == i + find_by_name(fs.skip(i), name),
    decreases i,
{
    assert(fs.skip(0) =~= fs);
    if i > 0 {
        assert(fs.drop_first() =~= fs.skip(1));
        assert(forall|k: int| 0 <= k < i - 1 ==> (#[trigger] fs.skip(1)[k]).name@ != name);
        lemma_find_by_name_shift(fs.skip(1), name, i - 1);
        assert(fs.skip(1).skip(i - 1) =~= fs.skip(i));
    }
}

impl Batch {
    pub proof fn lemma_find_field_props(fs: Seq<Field>, f: Field)
        ensures
            0 <= Self::find_field(fs, f) <= fs.len(),
            Self::find_field(fs, f) < fs.len() ==> fs[Self::find_field(fs, f)].same(f),
            forall|k: int| 0 <= k < Self::find_field(fs, f) ==> !(#[trigger] fs[k]).same(f),
        decreases fs.len(),
    {
        if fs.len() > 0 && !fs[0].same(f) {
            Self::lemma_find_field_props(fs.drop_first(), f);
            assert forall|k: int| 0 <= k < Self::find_field(fs, f) implies !fs[k].same(f) by {
                if k > 0 {
                    assert(fs[k] == fs.drop_first()[k - 1]);
                }
            };
        }
    }

    pub proof fn lemma_find_field_shift(fs: Seq<Field>, f: Field, i: int)
        requires
            0 <= i <= fs.len(),
            forall|k: int| 0 <= k < i ==> !(#[trigger] fs[k]).same(f),
        ensures
            Self::find_field(fs, f) == i + Self::find_field(fs.skip(i), f),
        decreases i,
    {
        assert(fs.skip(0) =~= fs);
        if i > 0 {
            assert(fs.drop_first() =~= fs.skip(1));
            assert(forall|k: int| 0 <= k < i - 1 ==> !(#[trigger] fs.skip(1)[k]).same(f));
            Self::lemma_find_field_shift(fs.skip(1), f, i - 1);
            assert(fs.skip(1).skip(i - 1) =~= fs.skip(i));
        }
    }
}

/// The index of the first field with this name, or the field count.
pub fn find_by_name_exec(fields: &Vec<Field>, name: &String) -> (r: usize)
    ensures
        r as int == find_by_name(fields@, name@),
{
    proof {
        vstd::std_specs::vec::axiom_spec_len(fields);
    }
    let mut i: usize = 0;
    while i < fields.len()
        invariant
            i <= fields@.len(),
            fields@.len() <= usize::MAX,
            forall|k: int| 0 <= k < i ==> (#[trigger] fields@[k]).name@ != name@,
        decreases fields@.len() - i,
    {
        if fields[i].name == *name {
            proof {
                lemma_find_by_name_shift(fields@, name@, i as int);
                assert(fields@.skip(i as int)[0] == fields@[i as int]);
            }
            return i;
        }
        i = i + 1;
    }
    proof {
        lemma_find_by_name_shift(fields@, name@, fields@.len() as int);
        assert(fields@.skip(fields@.len() as int) =~= Seq::<Field>::empty());
    }
    fields.len()
}

/// The index of the first field that is the same entry, or the count.
pub fn find_field_exec(fields: &Vec<Field>, f: &Field) -> (r: usize)
    ensures
        r as int == Batch::find_field(fields@, *f),
{
    proof {
        vstd::std_specs::vec::axiom_spec_len(fields);
    }
    let mut i: usize = 0;
    while i < fields.len()
        invariant
            i <= fields@.len(),
            fields@.len() <= usize::MAX,
            forall|k: int| 0 <= k < i ==> !(#[trigger] fields@[k]).same(*f),
        decreases fields@.len() - i,
    {
        if fields[i].same_field(f) {
            proof {
                Batch::lemma_find_field_shift(fields@, *f, i as int);
                assert(fields@.skip(i as int)[0] == fields@[i as int]);
            }
            return i;
        }
        i = i + 1;
    }
    proof {
        Batch::lemma_find_field_shift(fields@, *f, fields@.len() as int);
        assert(fields@.skip(fields@.len() as int) =~= Seq::<Field>::empty());
    }
    fields.len()
}

/// The batches a list of references points at.
pub open spec fn deref_bs(s: Seq<&Batch>) -> Seq<Batch> {
    s.map_values(|b: &Batch| *b)
}

/// Fold one field into a union schema: append it when its name is
/// new, keep the schema when the same entry is already there, and
/// fail when the name is taken by a different type.
pub open spec fn union_one(acc: Seq<Field>, f: Field) -> Option<Seq<Field>> {
    if find_by_name(acc, f.name@) == acc.len() {
        Some(acc.push(f))
    } else if acc[find_by_name(acc, f.name@)].dtype == f.dtype {
        Some(acc)
    } else {
        None
    }
}

/// Fold a whole schema into a union schema, fields in order.
pub open spec fn union_fields(acc: Seq<Field>, fs: Seq<Field>) -> Option<Seq<Field>>
    decreases fs.len(),
{
    if fs.len() == 0 {
        Some(acc)
    } else {
        match union_fields(acc, fs.drop_last()) {
            Some(a) => union_one(a, fs.last()),
            None => None,
        }
    }
}

/// The union of all input schemas, in first-occurrence order, or
/// nothing when one name carries two types.
pub open spec fn union_schemas(bs: Seq<Batch>) -> Option<Seq<Field>>
    decreases bs.len(),
{
    if bs.len() == 0 {
        Some(Seq::<Field>::empty())
    } else {
        match union_schemas(bs.drop_last()) {
            Some(a) => union_fields(a, bs.last().fields@),
            None => None,
        }
    }
}

pub proof fn lemma_union_fields_take_step(acc: Seq<Field>, fs: Seq<Field>, j: int)
    requires
        0 <= j < fs.len(),
    ensures
        union_fields(acc, fs.take(j + 1)) == match union_fields(acc, fs.take(j)) {
            Some(a) => union_one(a, fs[j]),
            None => None,
        },
{
    assert(fs.take(j + 1).drop_last() =~= fs.take(j));
    assert(fs.take(j + 1).last() == fs[j]);
}

/// Once the fold fails it stays failed however many fields follow.
pub proof fn lemma_union_fields_none(acc: Seq<Field>, fs: Seq<Field>, j: int)
    requires
        0 <= j <= fs.len(),
        union_fields(acc, fs.take(j)) is None,
    ensures
        union_fields(acc, fs) is None,
    decreases fs.len() - j,
{
    if j == fs.len() {
        assert(fs.take(j) =~= fs);
    } else {
        lemma_union_fields_take_step(acc, fs, j);
        lemma_union_fields_none(acc, fs, j + 1);
    }
}

pub proof fn lemma_union_schemas_take_step(bs: Seq<Batch>, i: int)
    requires
        0 <= i < bs.len(),
    ensures
        union_schemas(bs.take(i + 1)) == match union_schemas(bs.take(i)) {
            Some(a) => union_fields(a, bs[i].fields@),
            None => None,
        },
{
    assert(bs.take(i + 1).drop_last() =~= bs.take(i));
    assert(bs.take(i + 1).last() == bs[i]);
}

pub proof fn lemma_union_schemas_none(bs: Seq<Batch>, i: int)
    requires
        0 <= i <= bs.len(),
        union_schemas(bs.take(i)) is None,
    ensures
        union_schemas(bs) is None,
    decreases bs.len() - i,
{
    if i == bs.len() {
        assert(bs.take(i) =~= bs);
    } else {
        lemma_union_schemas_take_step(bs, i);
        lemma_union_schemas_none(bs, i + 1);
    }
}

/// The union of the input batches' schemas: every field of every
/// batch, compared by name and type, in first-occurrence order.
/// Fails with `SchemaConflict` when one name carries two types.
pub fn merge_schemas(batches: &Vec<&Batch>) -> (r: Result<Vec<Field>, EngineError>)
    ensures
        match r {
            Ok(fs) => union_schemas(deref_bs(batches@)) == Some(fs@),
            Err(e) => e == EngineError::SchemaConflict && union_schemas(deref_bs(batches@))
                is None,
        },
{
    let ghost bs = deref_bs(batches@);
    proof {
        vstd::std_specs::vec::axiom_spec_len(batches);
        assert(bs.take(0) =~= Seq::<Batch>::empty());
    }
    let mut acc: Vec<Field> = Vec::new();
    let mut i: usize = 0;
    while i < batches.len()
        invariant
            i <= batches@.len(),
            batches@.len() <= usize::MAX,
            bs == deref_bs(batches@),
            bs.len() == batches@.len(),
            forall|k: int| 0 <= k < batches@.len() ==> bs[k] == *(#[trigger] batches@[k]),
            union_schemas(bs.take(i as int)) == Some(acc@),
        decreases batches@.len() - i,
    {
        let fields = &batches[i].fields;
        proof {
            vstd::std_specs::vec::axiom_spec_len(fields);
            assert(fields@.take(0) =~= Seq::<Field>::empty());
        }
        let ghost acc0 = acc@;
        let mut j: usize = 0;
        while j < fields.len()
            invariant
                j <= fields@.len(),
                fields@.len() <= usize::MAX,
                fields == &bs[i as int].fields,
                i < bs.len(),
                bs == deref_bs(batches@),
                union_schemas(bs.take(i as int)) == Some(acc0),
                union_fields(acc0, fields@.take(j as int)) == Some(acc@),
            decreases fields@.len() - j,
        {
            let f = &fields[j];
            let idx = find_by_name_exec(&acc, &f.name);
            proof {
                vstd::std_specs::vec::axiom_spec_len(&acc);
                lemma_find_by_name_props(acc@, f.name@);
                lemma_union_fields_take_step(acc0, fields@, j as int);
            }
            if idx == acc.len() {
                acc.push(f.duplicate());
            } else {
                let same_type = match (acc[idx].dtype, f.dtype) {
                    (DataType::Int32, DataType::Int32) => true,
                    (DataType::Int64, DataType::Int64) => true,
                    (DataType::UInt64, DataType::UInt64) => true,
                    (DataType::Utf8, DataType::Utf8) => true,
                    _ => false,
                };
                if !same_type {
                    proof {
                        lemma_union_fields_none(acc0, fields@, j + 1);
                        lemma_union_schemas_take_step(bs, i as int);
                        lemma_union_schemas_none(bs, i + 1);
                    }
                    return Err(EngineError::SchemaConflict);
                }
            }
            j = j + 1;
        }
        proof {
            assert(fields@.take(fields@.len() as int) =~= fields@);
            lemma_union_schemas_take_step(bs, i as int);
        }
        i = i + 1;
    }
    proof {
        assert(bs.take(bs.len() as int) =~= bs);
    }
    Ok(acc)
}

/// The union of two schemas, fields of the first before fields of the
/// second. Fails with `SchemaConflict` when one name carries two
/// types.
pub fn merge_schema(s1: &Vec<Field>, s2: &Vec<Field>) -> (r: Result<Vec<Field>, EngineError>)
    ensures
        match r {
            Ok(fs) => {
                &&& union_fields(Seq::<Field>::empty(), s1@) is Some
                &&& union_fields(union_fields(Seq::<Field>::empty(), s1@).unwrap(), s2@)
                    == Some(fs@)
            },
            Err(e) => {
                &&& e == EngineError::SchemaConflict
                &&& (union_fields(Seq::<Field>::empty(), s1@) is None || union_fields(
                    union_fields(Seq::<Field>::empty(), s1@).unwrap(),
                    s2@,
                ) is None)
            },
        },
{
    let b1 = Batch::new_empty(duplicate_fields(s1));
    let b2 = Batch::new_empty(duplicate_fields(s2));
    let mut both: Vec<&Batch> = Vec::new();
    both.push(&b1);
    both.push(&b2);
    proof {
        let bs = deref_bs(both@);
        assert(bs.len() == 2);
        assert(bs[0] == b1);
        assert(bs[1] == b2);
        assert(bs.take(0) =~= Seq::<Batch>::empty());
        lemma_union_schemas_take_step(bs, 0);
        lemma_union_schemas_take_step(bs, 1);
        assert(bs.take(2) =~= bs);
        assert(bs.take(1)[0] == bs[0]);
    }
    merge_schemas(&both)
}

/// Exact copies of a schema's fields.
pub fn duplicate_fields(fields: &Vec<Field>) -> (r: Vec<Field>)
    ensures
        r@ == fields@,
{
    proof {
        vstd::std_specs::vec::axiom_spec_len(fields);
    }
    let mut r: Vec<Field> = Vec::new();
    let mut i: usize = 0;
    while i < fields.len()
        invariant
            i <= fields@.len(),
            fields@.len() <= usize::MAX,
            r@ == fields@.take(i as int),
        decreases fields@.len() - i,
    {
        r.push(fields[i].duplicate());
        proof {
            assert(r@ =~= fields@.take(i + 1));
        }
        i = i + 1;
    }
    proof {
        assert(fields@.take(fields@.len() as int) =~= fields@);
    }
    r
}

/// A column of nulls, as synthesized for a batch that lacks a field.
pub open spec fn null_col(n: int) -> Seq<Value> {
    Seq::new(n as nat, |i| Value::Null)
}

/// Build a column of `length` nulls.
pub fn build_null_array(length: usize) -> (r: Vec<Value>)
    ensures
        r@ == null_col(length as int),
{
    let mut r: Vec<Value> = Vec::new();
    let mut i: usize = 0;
    while i < length
        invariant
            i <= length,
            r@.len() == i,
            forall|k: int| 0 <= k < i ==> r@[k] == Value::Null,
        decreases length - i,
    {
        r.push(Value::Null);
        i = i + 1;
    }
    proof {
        assert(r@ =~= null_col(length as int));
    }
    r
}

/// The column a batch contributes for one field of the union schema:
/// its own column when it has the field, else nulls for its rows.
pub open spec fn col_for(b: Batch, f: Field) -> Seq<Value> {
    if b.has_field(f) {
        b.columns@[Batch::find_field(b.fields@, f)]@
    } else {
        null_col(b.row_count as int)
    }
}

/// One merged column: each batch's contribution, in batch order.
pub open spec fn merged_col(bs: Seq<Batch>, f: Field) -> Seq<Value>
    decreases bs.len(),
{
    if bs.len() == 0 {
        Seq::empty()
    } else {
        merged_col(bs.drop_last(), f) + col_for(bs.last(), f)
    }
}

pub proof fn lemma_merged_col_take_step(bs: Seq<Batch>, f: Field, i: int)
    requires
        0 <= i < bs.len(),
    ensures
        merged_col(bs.take(i + 1), f) == merged_col(bs.take(i), f) + col_for(bs[i], f),
{
    assert(bs.take(i + 1).drop_last() =~= bs.take(i));
    assert(bs.take(i + 1).last() == bs[i]);
}

/// The total row count of the input batches.
pub open spec fn sum_rows(bs: Seq<Batch>) -> int
    decreases bs.len(),
{
    if bs.len() == 0 {
        0
    } else {
        sum_rows(bs.drop_last()) + bs.last().row_count
    }
}

pub proof fn lemma_sum_rows_take_step(bs: Seq<Batch>, i: int)
    requires
        0 <= i < bs.len(),
    ensures
        sum_rows(bs.take(i + 1)) == sum_rows(bs.take(i)) + bs[i].row_count,
{
    assert(bs.take(i + 1).drop_last() =~= bs.take(i));
    assert(bs.take(i + 1).last() == bs[i]);
}

pub proof fn lemma_sum_rows_nonneg(bs: Seq<Batch>)
    ensures
        sum_rows(bs) >= 0,
    decreases bs.len(),
{
    if bs.len() > 0 {
        lemma_sum_rows_nonneg(bs.drop_last());
    }
}

/// A merged column is as long as the total row count.
pub proof fn lemma_merged_col_len(bs: Seq<Batch>, f: Field)
    requires
        forall|i: int| 0 <= i < bs.len() ==> (#[trigger] bs[i]).wf(),
    ensures
        merged_col(bs, f).len() == sum_rows(bs),
    decreases bs.len(),
{
    if bs.len() > 0 {
        assert(forall|i: int|
            0 <= i < bs.drop_last().len() ==> (#[trigger] bs.drop_last()[i]).wf());
        lemma_merged_col_len(bs.drop_last(), f);
        let b = bs.last();
        if b.has_field(f) {
            Batch::lemma_find_field_props(b.fields@, f);
        }
    }
}

/// Every cell of a merged column fits the field's type.
pub proof fn lemma_merged_col_fits(bs: Seq<Batch>, f: Field, k: int)
    requires
        forall|i: int| 0 <= i < bs.len() ==> (#[trigger] bs[i]).wf(),
        0 <= k < merged_col(bs, f).len(),
    ensures
        value_fits(merged_col(bs, f)[k], f.dtype),
    decreases bs.len(),
{
    if bs.len() > 0 {
        assert(forall|i: int|
            0 <= i < bs.drop_last().len() ==> (#[trigger] bs.drop_last()[i]).wf());
        let front = merged_col(bs.drop_last(), f);
        if k < front.len() {
            lemma_merged_col_fits(bs.drop_last(), f, k);
        } else {
            let b = bs.last();
            if b.has_field(f) {
                Batch::lemma_find_field_props(b.fields@, f);
                assert(b.fields@[Batch::find_field(b.fields@, f)].same(f));
            }
        }
    }
}

/// Merge already-reconciled inputs under a given union schema: per
/// field, each input contributes its own column or nulls, and the
/// contributions stand concatenated in batch order. An empty schema
/// degenerates to a row count alone.
pub fn merge_batches_with_schema(fields: &Vec<Field>, batches: &Vec<&Batch>) -> (r: Batch)
    requires
        forall|i: int| 0 <= i < batches@.len() ==> (*(#[trigger] batches@[i])).wf(),
        sum_rows(deref_bs(batches@)) <= usize::MAX,
    ensures
        r.wf(),
        r.fields@ == fields@,
        r.row_count == sum_rows(deref_bs(batches@)),
        r.table_meta is None,
        forall|j: int|
            0 <= j < fields@.len() ==> (#[trigger] r.columns@[j])@ == merged_col(
                deref_bs(batches@),
                fields@[j],
            ),
{
    let ghost bs = deref_bs(batches@);
    proof {
        vstd::std_specs::vec::axiom_spec_len(fields);
        vstd::std_specs::vec::axiom_spec_len(batches);
        assert(bs.take(0) =~= Seq::<Batch>::empty());
        lemma_sum_rows_nonneg(bs);
    }
    let mut total_rows: usize = 0;
    let mut bi: usize = 0;
    while bi < batches.len()
        invariant
            bi <= batches@.len(),
            batches@.len() <= usize::MAX,
            bs == deref_bs(batches@),
            bs.len() == batches@.len(),
            total_rows == sum_rows(bs.take(bi as int)),
            sum_rows(bs) <= usize::MAX,
        decreases batches@.len() - bi,
    {
        proof {
            lemma_sum_rows_take_step(bs, bi as int);
            lemma_sum_rows_mono(bs, bi + 1, bs.len() as int);
            assert(bs.take(bs.len() as int) =~= bs);
        }
        total_rows = total_rows + batches[bi].row_count;
        bi = bi + 1;
    }
    proof {
        assert(bs.take(bs.len() as int) =~= bs);
    }
    let mut columns: Vec<Vec<Value>> = Vec::new();
    let mut j: usize = 0;
    while j < fields.len()
        invariant
            j <= fields@.len(),
            fields@.len() <= usize::MAX,
            batches@.len() <= usize::MAX,
            bs == deref_bs(batches@),
            bs.len() == batches@.len(),
            forall|i: int| 0 <= i < bs.len() ==> (#[trigger] bs[i]).wf(),
            total_rows == sum_rows(bs),
            sum_rows(bs) <= usize::MAX,
            columns@.len() == j,
            forall|k: int|
                0 <= k < j ==> (#[trigger] columns@[k])@ == merged_col(bs, fields@[k]),
        decreases fields@.len() - j,
    {
        let f = &fields[j];
        let mut col: Vec<Value> = Vec::new();
        let mut i: usize = 0;
        proof {
            assert(bs.take(0) =~= Seq::<Batch>::empty());
        }
        while i < batches.len()
            invariant
                i <= batches@.len(),
                batches@.len() <= usize::MAX,
                bs == deref_bs(batches@),
                bs.len() == batches@.len(),
                forall|k: int| 0 <= k < bs.len() ==> (#[trigger] bs[k]).wf(),
                f == &fields@[j as int],
                j < fields@.len(),
                col@ == merged_col(bs.take(i as int), *f),
            decreases batches@.len() - i,
        {
            let b = batches[i];
            proof {
                assert(*b == bs[i as int]);
                vstd::std_specs::vec::axiom_spec_len(&b.fields);
                vstd::std_specs::vec::axiom_spec_len(&b.columns);
            }
            let ghost prefix_col = col@;
            let idx = find_field_exec(&b.fields, f);
            proof {
                Batch::lemma_find_field_props(b.fields@, *f);
            }
            if idx < b.fields.len() {
                let src = &b.columns[idx];
                proof {
                    vstd::std_specs::vec::axiom_spec_len(src);
                }
                let mut k: usize = 0;
                while k < src.len()
                    invariant
                        k <= src@.len(),
                        src@.len() <= usize::MAX,
                        src == &bs[i as int].columns@[idx as int],
                        i < bs.len(),
                        idx < bs[i as int].columns@.len(),
                        col@ == prefix_col + src@.take(k as int),
                    decreases src@.len() - k,
                {
                    col.push(src[k].duplicate());
                    proof {
                        assert(col@ =~= prefix_col + src@.take(k + 1));
                    }
                    k = k + 1;
                }
                proof {
                    assert(src@.take(src@.len() as int) =~= src@);
                    lemma_merged_col_take_step(bs, *f, i as int);
                    assert(col_for(bs[i as int], *f) == src@);
                    assert(col@ =~= merged_col(bs.take(i + 1), *f));
                }
            } else {
                let mut k: usize = 0;
                while k < b.row_count
                    invariant
                        k <= bs[i as int].row_count,
                        i < bs.len(),
                        b == batches@[i as int],
                        *b == bs[i as int],
                        col@.len() == prefix_col.len() + k,
                        forall|m: int| 0 <= m < prefix_col.len() ==> col@[m] == prefix_col[m],
                        forall|m: int|
                            prefix_col.len() <= m < col@.len() ==> col@[m] == Value::Null,
                    decreases bs[i as int].row_count - k,
                {
                    col.push(Value::Null);
                    k = k + 1;
                }
                proof {
                    lemma_merged_col_take_step(bs, *f, i as int);
                    assert(col_for(bs[i as int], *f) == null_col(
                        bs[i as int].row_count as int,
                    ));
                    assert(col@ =~= merged_col(bs.take(i + 1), *f));
                }
            }
            i = i + 1;
        }
        proof {
            assert(bs.take(bs.len() as int) =~= bs);
        }
        columns.push(col);
        j = j + 1;
    }
    proof {
        assert(fields@.take(fields@.len() as int) =~= fields@);
    }
    let out_fields = duplicate_fields(fields);
    let r = Batch { fields: out_fields, columns, row_count: total_rows, table_meta: None };
    proof {
        assert forall|jj: int, kk: int|
            0 <= jj < r.columns@.len() && 0 <= kk < r.row_count implies value_fits(
            r.columns@[jj]@[kk],
            r.fields@[jj].dtype,
        ) by {
            lemma_merged_col_len(bs, fields@[jj]);
            lemma_merged_col_fits(bs, fields@[jj], kk);
        };
        assert forall|jj: int| 0 <= jj < r.columns@.len() implies (#[trigger] r.columns@[jj])@.len()
            == r.row_count by {
            lemma_merged_col_len(bs, fields@[jj]);
        };
    }
    r
}

pub proof fn lemma_sum_rows_mono(bs: Seq<Batch>, i: int, j: int)
    requires
        0 <= i <= j <= bs.len(),
    ensures
        sum_rows(bs.take(i)) <= sum_rows(bs.take(j)),
    decreases j - i,
{
    if i < j {
        lemma_sum_rows_take_step(bs, i);
        lemma_sum_rows_mono(bs, i + 1, j);
    }
}

/// The schema-reconciling merge: union all input schemas, then merge
/// the inputs under the union. Fails with `SchemaConflict` when one
/// field name carries two types.
pub fn merge_batches(batches: &Vec<&Batch>) -> (r: Result<Batch, EngineError>)
    requires
        forall|i: int| 0 <= i < batches@.len() ==> (*(#[trigger] batches@[i])).wf(),
        sum_rows(deref_bs(batches@)) <= usize::MAX,
    ensures
        match r {
            Ok(b) => {
                &&& union_schemas(deref_bs(batches@)) is Some
                &&& b.wf()
                &&& b.fields@ == union_schemas(deref_bs(batches@)).unwrap()
                &&& b.row_count == sum_rows(deref_bs(batches@))
                &&& b.table_meta is None
                &&& forall|j: int|
                    0 <= j < b.fields@.len() ==> (#[trigger] b.columns@[j])@ == merged_col(
                        deref_bs(batches@),
                        b.fields@[j],
                    )
            },
            Err(e) => e == EngineError::SchemaConflict && union_schemas(deref_bs(batches@))
                is None,
        },
{
    let fields = match merge_schemas(batches) {
        Ok(fs) => fs,
        Err(e) => {
            return Err(e);
        },
    };
    Ok(merge_batches_with_schema(&fields, batches))
}

/// Two batches that hold the same data: same schema, same cells, same
/// row count, same tag.
pub open spec fn batch_equiv(a: Batch, b: Batch) -> bool {
    &&& a.fields@ == b.fields@
    &&& a.columns@.len() == b.columns@.len()
    &&& forall|i: int| 0 <= i < a.columns@.len() ==> (#[trigger] a.columns@[i])@ == b.columns@[i]@
    &&& a.row_count == b.row_count
    &&& a.table_meta == b.table_meta
}

impl Batch {
    /// A copy of this batch that holds the same data.
    pub fn duplicate(&self) -> (r: Batch)
        ensures
            batch_equiv(r, *self),
    {
        proof {
            vstd::std_specs::vec::axiom_spec_len(&self.columns);
        }
        let fields = duplicate_fields(&self.fields);
        let mut columns: Vec<Vec<Value>> = Vec::new();
        let mut i: usize = 0;
        while i < self.columns.len()
            invariant
                i <= self.columns@.len(),
                self.columns@.len() <= usize::MAX,
                columns@.len() == i,
                forall|k: int| 0 <= k < i ==> (#[trigger] columns@[k])@ == self.columns@[k]@,
            decreases self.columns@.len() - i,
        {
            let src = &self.columns[i];
            proof {
                vstd::std_specs::vec::axiom_spec_len(src);
            }
            let mut col: Vec<Value> = Vec::new();
            let mut j: usize = 0;
            while j < src.len()
                invariant
                    j <= src@.len(),
                    src@.len() <= usize::MAX,
                    src == &self.columns@[i as int],
                    i < self.columns@.len(),
                    col@ == src@.take(j as int),
                decreases src@.len() - j,
            {
                col.push(src[j].duplicate());
                proof {
                    assert(col@ =~= src@.take(j + 1));
                }
                j = j + 1;
            }
            proof {
                assert(src@.take(src@.len() as int) =~= src@);
            }
            columns.push(col);
            i = i + 1;
        }
        let table_meta = match &self.table_meta {
            Some(s) => Some(s.clone()),
            None => None,
        };
        Batch { fields, columns, row_count: self.row_count, table_meta }
    }
}

/// Merging one batch with an empty batch over the same schema leaves
/// each column as the batch's own contribution.
pub proof fn lemma_merge_with_empty(b: Batch, e: Batch, f: Field)
    requires
        e.row_count == 0,
        e.wf(),
    ensures
        merged_col(seq![b, e], f) == col_for(b, f),
{
    let bs = seq![b, e];
    assert(bs.drop_last() =~= seq![b]);
    assert(bs.last() == e);
    assert(seq![b].drop_last() =~= Seq::<Batch>::empty());
    assert(seq![b].last() == b);
    assert(merged_col(Seq::<Batch>::empty(), f) == Seq::<Value>::empty());
    assert(merged_col(seq![b], f) == merged_col(seq![b].drop_last(), f) + col_for(
        seq![b].last(),
        f,
    ));
    assert(merged_col(seq![b], f) =~= col_for(b, f));
    if e.has_field(f) {
        Batch::lemma_find_field_props(e.fields@, f);
        assert(col_for(e, f).len() == 0);
    } else {
        assert(col_for(e, f) =~= Seq::<Value>::empty());
    }
    assert(merged_col(bs, f) =~= col_for(b, f));
}


} // verus!
