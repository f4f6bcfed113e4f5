use crate::order::str_eq;
use crate::scalar::ScalarKind;
use vstd::prelude::*;

verus! {

/// Which optional scalar kinds a deployment enables.
#[derive(Clone, Copy, Debug, PartialEq, Eq, Structural)]
pub struct Capabilities {
    pub timestamps: bool,
    pub dates: bool,
    pub uuids: bool,
}

/// Whether a column kind is available under the given capabilities.
pub open spec fn spec_kind_enabled(kind: ScalarKind, caps: Capabilities) -> bool {
    match kind {
        ScalarKind::Timestamp => caps.timestamps,
        ScalarKind::Date => caps.dates,
        ScalarKind::Uuid => caps.uuids,
        _ => true,
    }
}

/// One declared column of a table.
#[derive(Clone, Debug)]
pub struct ColumnInfo {
    pub name: String,
    pub kind: ScalarKind,
    pub nullable: bool,
}

/// The direction of a declared association.
#[derive(Clone, Copy, Debug, PartialEq, Eq, Structural)]
pub enum AssociationDirection {
    /// The parent row owns a foreign-key column pointing at the target table's
    /// primary key; at most one target row belongs to each parent.
    ToOne,
    /// The target table owns a foreign-key column pointing at the parent
    /// table's primary key; any number of target rows belong to each parent.
    ToMany,
}

/// One declared association field of a table.
///
/// For `ToMany` the `foreign_key` indexes a column of the target table; for
/// `ToOne` it indexes a column of the owning table.
#[derive(Clone, Debug)]
pub struct Association {
    pub field_name: String,
    pub direction: AssociationDirection,
    pub target_table: usize,
    pub foreign_key: usize,
}

/// One table: its name, ordered columns, primary key and associations.
#[derive(Clone, Debug)]
pub struct TableInfo {
    pub name: String,
    pub columns: Vec<ColumnInfo>,
    pub primary_key: Vec<usize>,
    pub associations: Vec<Association>,
}

/// A set of tables sharing one namespace of table indexes.
#[derive(Clone, Debug)]
pub struct Schema {
    pub tables: Vec<TableInfo>,
    pub capabilities: Capabilities,
}

/// The first column carrying `name`, if any.
pub open spec fn spec_column_index(cols: Seq<ColumnInfo>, name: Seq<char>) -> Option<int>
    decreases cols.len(),
{
    if cols.len() == 0 {
        None
    } else if cols[0].name@ == name {
        Some(0int)
    } else {
        match spec_column_index(cols.drop_first(), name) {
            Some(i) => Some(i + 1),
            None => None,
        }
    }
}

/// The first association carrying `name`, if any.
pub open spec fn spec_association_index(assocs: Seq<Association>, name: Seq<char>) -> Option<int>
    decreases assocs.len(),
{
    if assocs.len() == 0 {
        None
    } else if assocs[0].field_name@ == name {
        Some(0int)
    } else {
        match spec_association_index(assocs.drop_first(), name) {
            Some(i) => Some(i + 1),
            None => None,
        }
    }
}

/// What `spec_column_index` returns: the position of the first column carrying
/// the name, or nothing when no column carries it.
pub proof fn lemma_column_index_props(cols: Seq<ColumnInfo>, name: Seq<char>)
    ensures
        match spec_column_index(cols, name) {
            Some(k) => 0 <= k < cols.len() && cols[k].name@ == name && forall|j: int|
                0 <= j < k ==> (#[trigger] cols[j]).name@ != name,
            None => forall|j: int| 0 <= j < cols.len() ==> (#[trigger] cols[j]).name@ != name,
        },
    decreases cols.len(),
{
    if cols.len() != 0 && cols[0].name@ != name {
        lemma_column_index_props(cols.drop_first(), name);
        match spec_column_index(cols, name) {
            Some(k) => {
                assert(cols.drop_first()[k - 1] == cols[k]);
                assert forall|j: int| 0 <= j < k implies (#[trigger] cols[j]).name@ != name by {
                    if j > 0 {
                        assert(cols.drop_first()[j - 1] == cols[j]);
                    }
                }
            },
            None => {
                assert forall|j: int| 0 <= j < cols.len() implies (#[trigger] cols[j]).name@
                    != name by {
                    if j > 0 {
                        assert(cols.drop_first()[j - 1] == cols[j]);
                    }
                }
            },
        }
    }
}

/// `spec_column_index` finds exactly the first column carrying the name.
pub proof fn lemma_column_index_of(cols: Seq<ColumnInfo>, name: Seq<char>, k: int)
    requires
        0 <= k < cols.len(),
        cols[k].name@ == name,
        forall|j: int| 0 <= j < k ==> (#[trigger] cols[j]).name@ != name,
    ensures
        spec_column_index(cols, name) == Some(k),
    decreases k,
{
    if k > 0 {
        assert(cols.drop_first()[k - 1] == cols[k]);
        assert forall|j: int|
            0 <= j < k - 1 implies (#[trigger] cols.drop_first()[j]).name@ != name by {
            assert(cols.drop_first()[j] == cols[j + 1]);
        }
        lemma_column_index_of(cols.drop_first(), name, k - 1);
    }
}

/// What `spec_association_index` returns, in the same way.
pub proof fn lemma_association_index_props(assocs: Seq<Association>, name: Seq<char>)
    ensures
        match spec_association_index(assocs, name) {
            Some(k) => 0 <= k < assocs.len() && assocs[k].field_name@ == name && forall|j: int|
                0 <= j < k ==> (#[trigger] assocs[j]).field_name@ != name,
            None => forall|j: int|
                0 <= j < assocs.len() ==> (#[trigger] assocs[j]).field_name@ != name,
        },
    decreases assocs.len(),
{
    if assocs.len() != 0 && assocs[0].field_name@ != name {
        lemma_association_index_props(assocs.drop_first(), name);
        match spec_association_index(assocs, name) {
            Some(k) => {
                assert(assocs.drop_first()[k - 1] == assocs[k]);
                assert forall|j: int| 0 <= j < k implies (#[trigger] assocs[j]).field_name@
                    != name by {
                    if j > 0 {
                        assert(assocs.drop_first()[j - 1] == assocs[j]);
                    }
                }
            },
            None => {
                assert forall|j: int|
                    0 <= j < assocs.len() implies (#[trigger] assocs[j]).field_name@ != name by {
                    if j > 0 {
                        assert(assocs.drop_first()[j - 1] == assocs[j]);
                    }
                }
            },
        }
    }
}

/// `spec_association_index` finds exactly the first association carrying the name.
pub proof fn lemma_association_index_of(assocs: Seq<Association>, name: Seq<char>, k: int)
    requires
        0 <= k < assocs.len(),
        assocs[k].field_name@ == name,
        forall|j: int| 0 <= j < k ==> (#[trigger] assocs[j]).field_name@ != name,
    ensures
        spec_association_index(assocs, name) == Some(k),
    decreases k,
{
    if k > 0 {
        assert(assocs.drop_first()[k - 1] == assocs[k]);
        assert forall|j: int|
            0 <= j < k - 1 implies (#[trigger] assocs.drop_first()[j]).field_name@ != name by {
            assert(assocs.drop_first()[j] == assocs[j + 1]);
        }
        lemma_association_index_of(assocs.drop_first(), name, k - 1);
    }
}

impl TableInfo {
    /// Whether some primary-key column has index `c`.
    pub open spec fn spec_is_primary_key_index(self, c: int) -> bool {
        exists|k: int| 0 <= k < self.primary_key@.len() && self.primary_key@[k] == c
    }

    /// Well-formedness of one table on its own: valid column indexes, a
    /// non-empty primary key of non-nullable columns, and distinct names for
    /// everything a request can select.
    pub open spec fn spec_wf_local(self, caps: Capabilities) -> bool {
        &&& 1 <= self.primary_key@.len()
        &&& forall|k: int|
            0 <= k < self.primary_key@.len() ==> {
                &&& 0 <= #[trigger] self.primary_key@[k] < self.columns@.len()
                &&& !self.columns@[self.primary_key@[k] as int].nullable
            }
        &&& forall|k1: int, k2: int|
            0 <= k1 < k2 < self.primary_key@.len() ==> #[trigger] self.primary_key@[k1]
                != #[trigger] self.primary_key@[k2]
        &&& forall|i: int|
            0 <= i < self.columns@.len() ==> spec_kind_enabled(
                (#[trigger] self.columns@[i]).kind,
                caps,
            )
        &&& forall|i: int, j: int|
            0 <= i < j < self.columns@.len() ==> (#[trigger] self.columns@[i]).name@ != (
            #[trigger] self.columns@[j]).name@
        &&& forall|i: int, j: int|
            0 <= i < j < self.associations@.len() ==> (
            #[trigger] self.associations@[i]).field_name@ != (
            #[trigger] self.associations@[j]).field_name@
        &&& forall|i: int, j: int|
            0 <= i < self.columns@.len() && 0 <= j < self.associations@.len() ==> (
            #[trigger] self.columns@[i]).name@ != (#[trigger] self.associations@[j]).field_name@
    }

    /// Looks up a column by name.
    pub fn column_index(&self, name: &str) -> (r: Option<usize>)
        ensures
            match spec_column_index(self.columns@, name@) {
                Some(i) => r == Some(i as usize),
                None => r is None,
            },
    {
        let cols = &self.columns;
        let mut i: usize = 0;
        while i < cols.len()
            invariant
                i <= cols@.len(),
                cols == &self.columns,
                forall|j: int| 0 <= j < i ==> (#[trigger] cols@[j]).name@ != name@,
            decreases cols@.len() - i,
        {
            if str_eq(cols[i].name.as_str(), name) {
                proof {
                    lemma_column_index_of(cols@, name@, i as int);
                }
                return Some(i);
            }
            i = i + 1;
        }
        proof {
            lemma_column_index_props(cols@, name@);
        }
        None
    }

    /// Looks up an association by field name.
    pub fn association_index(&self, name: &str) -> (r: Option<usize>)
        ensures
            match spec_association_index(self.associations@, name@) {
                Some(i) => r == Some(i as usize),
                None => r is None,
            },
    {
        let assocs = &self.associations;
        let mut i: usize = 0;
        while i < assocs.len()
            invariant
                i <= assocs@.len(),
                assocs == &self.associations,
                forall|j: int| 0 <= j < i ==> (#[trigger] assocs@[j]).field_name@ != name@,
            decreases assocs@.len() - i,
        {
            if str_eq(assocs[i].field_name.as_str(), name) {
                proof {
                    lemma_association_index_of(assocs@, name@, i as int);
                }
                return Some(i);
            }
            i = i + 1;
        }
        proof {
            lemma_association_index_props(assocs@, name@);
        }
        None
    }
}

impl Schema {
    /// Well-formedness of the whole schema: every table is well formed and
    /// every association joins a single-column key of the matching kind.
    pub open spec fn spec_wf(self) -> bool {
        &&& forall|t: int|
            0 <= t < self.tables@.len() ==> (#[trigger] self.tables@[t]).spec_wf_local(
                self.capabilities,
            )
        &&& forall|t: int, a: int|
            0 <= t < self.tables@.len() && 0 <= a < (#[trigger] self.tables@[t]).associations@.len()
                ==> self.spec_wf_association(t, (#[trigger] self.tables@[t].associations@[a]))
    }

    /// Well-formedness of one association declared by table `t`.
    pub open spec fn spec_wf_association(self, t: int, a: Association) -> bool {
        &&& 0 <= a.target_table < self.tables@.len()
        &&& match a.direction {
            AssociationDirection::ToMany => {
                // the parent's single-column key is mirrored by a foreign-key
                // column of the target table
                &&& self.tables@[t].primary_key@.len() == 1
                &&& a.foreign_key < self.tables@[a.target_table as int].columns@.len()
                &&& self.tables@[a.target_table as int].columns@[a.foreign_key as int].kind
                    == self.tables@[t].columns@[self.tables@[t].primary_key@[0] as int].kind
            },
            AssociationDirection::ToOne => {
                // the parent owns a foreign-key column holding the target's
                // single-column key
                &&& self.tables@[a.target_table as int].primary_key@.len() == 1
                &&& a.foreign_key < self.tables@[t].columns@.len()
                &&& self.tables@[t].columns@[a.foreign_key as int].kind
                    == self.tables@[a.target_table as int].columns@[self.tables@[
                    a.target_table as int].primary_key@[0] as int].kind
            },
        }
    }
}

} // verus!
