//! The slice of the table schema that the pruner reads: named, typed columns,
//! resolved by name to a numeric column identifier, and the shape of a sort
//! key expression.

use vstd::prelude::*;

verus! {

/// Declared type of a table column. Only the distinction between the
/// variable-length `String` type and the fixed-width scalar types matters to
/// the pruner: stored min/max for strings may be truncated prefixes, so they
/// are not reliable ordering bounds.
#[derive(Clone, Copy, Debug, PartialEq, Eq, Structural)]
pub enum TableDataType {
    Boolean,
    Number,
    Date,
    Timestamp,
    String,
}

/// One column of the table schema: a name and a declared type.
pub struct TableField {
    pub name: String,
    pub data_type: TableDataType,
}

/// The table schema: an ordered list of fields. A column identifier is the
/// position of its field in this list.
pub struct TableSchema {
    pub fields: Vec<TableField>,
}

/// Position of the first field of `fields` whose name is `name`, if any.
pub open spec fn spec_index_of(fields: Seq<TableField>, name: Seq<char>) -> Option<int>
    decreases fields.len(),
{
    if fields.len() == 0 {
        None
    } else if fields[0].name@ == name {
        Some(0int)
    } else {
        match spec_index_of(fields.drop_first(), name) {
            Some(i) => Some(i + 1),
            None => None,
        }
    }
}

/// If the first `i` fields do not match `name`, resolving `name` against the
/// whole list is the same as resolving it against the rest, shifted by `i`.
proof fn lemma_index_of_skip(fields: Seq<TableField>, name: Seq<char>, i: int)
    requires
        0 <= i <= fields.len(),
        forall|j: int| 0 <= j < i ==> fields[j].name@ != name,
    ensures
        spec_index_of(fields, name) == match spec_index_of(fields.skip(i), name) {
            Some(k) => Some(k + i),
            None => None::<int>,
        },
    decreases i,
{
    if i == 0 {
        assert(fields.skip(0) =~= fields);
    } else {
        lemma_index_of_skip(fields.drop_first(), name, i - 1);
        assert(fields.drop_first().skip(i - 1) =~= fields.skip(i));
    }
}

impl TableSchema {
    /// Resolve a column name to its identifier: the position of the first
    /// field with that name, or `None` when no field matches.
    pub fn index_of(&self, name: &String) -> (r: Option<usize>)
        ensures
            r matches Some(i) ==> i < self.fields@.len() && spec_index_of(self.fields@, name@)
                == Some(i as int),
            r is None ==> spec_index_of(self.fields@, name@) is None,
    {
        let n = self.fields.len();
        let mut i: usize = 0;
        while i < n
            invariant
                n == self.fields@.len(),
                0 <= i <= n,
                forall|j: int| 0 <= j < i ==> self.fields@[j].name@ != name@,
            decreases n - i,
        {
            if self.fields[i].name == *name {
                proof {
                    lemma_index_of_skip(self.fields@, name@, i as int);
                    assert(self.fields@.skip(i as int)[0] == self.fields@[i as int]);
                }
                return Some(i);
            }
            i += 1;
        }
        proof {
            lemma_index_of_skip(self.fields@, name@, n as int);
        }
        None
    }

    /// Declared data type of the column with identifier `id`.
    pub fn field_type(&self, id: usize) -> (r: TableDataType)
        requires
            id < self.fields@.len(),
        ensures
            r == self.fields@[id as int].data_type,
    {
        self.fields[id].data_type
    }
}

/// A sort key expression, as the query plan hands it down. Pruning is only
/// possible for a direct reference to a materialized column; the other
/// shapes stand for computed expressions, for which no per-column statistics
/// exist.
pub enum RemoteExpr {
    ColumnRef { id: String },
    Constant,
    FunctionCall,
}

} // verus!
