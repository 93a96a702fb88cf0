//! Attribute ingestion: typed columns in, per-row property maps out.
//!
//! Cells come in as text, 32-bit integers (with `i32::MIN` meaning NA),
//! measures (already split by the caller into missing / whole / tenths) and
//! logicals (`i32` with `i32::MIN` meaning NA). Building a row's properties
//! skips NA cells, stores whole measures as integers, and normalizes the
//! ESRI convention `-1 = true` for the fixed list of boolean fields.

use crate::props::{PropMap, PropView, PropertyValue};
use crate::strutil::str_eq;
use vstd::prelude::*;

verus! {

/// A measure cell: missing, a whole number, or tenths.
pub enum RealCell {
    Missing,
    Whole(i64),
    Tenths(i64),
}

/// One typed attribute column.
pub enum ColumnData {
    Text(Vec<String>),
    Int(Vec<i32>),
    Real(Vec<RealCell>),
    Logic(Vec<i32>),
}

/// The NVDB fields that use the ESRI convention `-1 = true`.
pub open spec fn is_bool_field_name(n: Seq<char>) -> bool {
    ||| n == "F_ForbudTrafik"@
    ||| n == "B_ForbudTrafik"@
    ||| n == "F_ForbjudenFardriktning"@
    ||| n == "B_ForbjudenFardriktning"@
    ||| n == "F_Cirkulationsplats"@
    ||| n == "B_Cirkulationsplats"@
    ||| n == "TattbebyggtOmrade"@
    ||| n == "Farjeled"@
    ||| n == "Motorvag"@
    ||| n == "Motortrafikled"@
    ||| n == "GCM_belyst"@
    ||| n == "GCM_passage"@
    ||| n == "F_Omkorningsforbud"@
    ||| n == "B_Omkorningsforbud"@
    ||| n == "L_Gagata"@
    ||| n == "R_Gagata"@
    ||| n == "L_Gangfartsomrade"@
    ||| n == "R_Gangfartsomrade"@
    ||| n == "Miljozon"@
    ||| n == "C_Rekbilvagcykeltrafik"@
    ||| n == "Rastplats"@
    ||| n == "L_Rastficka_2"@
    ||| n == "R_Rastficka_2"@
    ||| n == "F_ATK_Matplats"@
    ||| n == "B_ATK_Matplats"@
}

/// Is `name` one of the fields that use `-1 = true`?
pub fn is_boolean_field(name: &str) -> (r: bool)
    ensures
        r == is_bool_field_name(name@),
{
    str_eq(name, "F_ForbudTrafik") || str_eq(name, "B_ForbudTrafik") || str_eq(
        name,
        "F_ForbjudenFardriktning",
    ) || str_eq(name, "B_ForbjudenFardriktning") || str_eq(name, "F_Cirkulationsplats") || str_eq(
        name,
        "B_Cirkulationsplats",
    ) || str_eq(name, "TattbebyggtOmrade") || str_eq(name, "Farjeled") || str_eq(name, "Motorvag")
        || str_eq(name, "Motortrafikled") || str_eq(name, "GCM_belyst") || str_eq(
        name,
        "GCM_passage",
    ) || str_eq(name, "F_Omkorningsforbud") || str_eq(name, "B_Omkorningsforbud") || str_eq(
        name,
        "L_Gagata",
    ) || str_eq(name, "R_Gagata") || str_eq(name, "L_Gangfartsomrade") || str_eq(
        name,
        "R_Gangfartsomrade",
    ) || str_eq(name, "Miljozon") || str_eq(name, "C_Rekbilvagcykeltrafik") || str_eq(
        name,
        "Rastplats",
    ) || str_eq(name, "L_Rastficka_2") || str_eq(name, "R_Rastficka_2") || str_eq(
        name,
        "F_ATK_Matplats",
    ) || str_eq(name, "B_ATK_Matplats")
}

/// The property entry a text column contributes for a row: skipped when the
/// row is out of range or the text is empty.
pub open spec fn string_cell_entry(name: Seq<char>, vals: Seq<Seq<char>>, row: int) -> Seq<
    (Seq<char>, PropView),
> {
    if 0 <= row < vals.len() && vals[row].len() > 0 {
        seq![(name, PropView::Text(vals[row]))]
    } else {
        Seq::empty()
    }
}

/// The property entry an integer column contributes for a row: NA is
/// `i32::MIN`; `-1` on a boolean field reads as 1.
pub open spec fn int_cell_entry(name: Seq<char>, vals: Seq<i32>, row: int) -> Seq<
    (Seq<char>, PropView),
> {
    if 0 <= row < vals.len() && vals[row] != i32::MIN {
        let v = if vals[row] == -1 && is_bool_field_name(name) {
            1int
        } else {
            vals[row] as int
        };
        seq![(name, PropView::Integer(v))]
    } else {
        Seq::empty()
    }
}

/// The property entry a measure column contributes for a row: a whole
/// measure is stored as an integer (with the boolean normalization), a
/// fractional one as tenths.
pub open spec fn real_cell_entry(name: Seq<char>, vals: Seq<RealCell>, row: int) -> Seq<
    (Seq<char>, PropView),
> {
    if 0 <= row < vals.len() {
        match vals[row] {
            RealCell::Missing => Seq::empty(),
            RealCell::Whole(w) => {
                let v = if w == -1 && is_bool_field_name(name) {
                    1int
                } else {
                    w as int
                };
                seq![(name, PropView::Integer(v))]
            },
            RealCell::Tenths(t) => seq![(name, PropView::Decimal(t as int))],
        }
    } else {
        Seq::empty()
    }
}

/// The property entry a logical column contributes for a row: NA is
/// `i32::MIN`, anything else is a boolean.
pub open spec fn logic_cell_entry(name: Seq<char>, vals: Seq<i32>, row: int) -> Seq<
    (Seq<char>, PropView),
> {
    if 0 <= row < vals.len() && vals[row] != i32::MIN {
        seq![(name, PropView::Boolean(vals[row] != 0))]
    } else {
        Seq::empty()
    }
}

/// The map that results from inserting `entries` in order into the empty map.
pub open spec fn props_of_entries(entries: Seq<(Seq<char>, PropView)>) -> Map<Seq<char>, PropView>
    decreases entries.len(),
{
    if entries.len() == 0 {
        Map::empty()
    } else {
        props_of_entries(entries.drop_last()).insert(entries.last().0, entries.last().1)
    }
}

/// Typed columns, separated by kind in the order they arrived; each entry
/// carries its position in the name list.
pub struct PreprocessedColumns {
    names: Vec<String>,
    string_cols: Vec<(usize, Vec<String>)>,
    int_cols: Vec<(usize, Vec<i32>)>,
    real_cols: Vec<(usize, Vec<RealCell>)>,
    logical_cols: Vec<(usize, Vec<i32>)>,
}

impl PreprocessedColumns {
    /// The column names, as character sequences.
    pub closed spec fn name_seq(self) -> Seq<Seq<char>> {
        self.names@.map_values(|k: String| k@)
    }

    /// The text columns: (name, cells) in arrival order.
    pub closed spec fn string_view(self) -> Seq<(Seq<char>, Seq<Seq<char>>)> {
        self.string_cols@.map_values(
            |p: (usize, Vec<String>)|
                (self.names@[p.0 as int]@, p.1@.map_values(|s: String| s@)),
        )
    }

    /// The integer columns: (name, cells) in arrival order.
    pub closed spec fn int_view(self) -> Seq<(Seq<char>, Seq<i32>)> {
        self.int_cols@.map_values(|p: (usize, Vec<i32>)| (self.names@[p.0 as int]@, p.1@))
    }

    /// The measure columns: (name, cells) in arrival order.
    pub closed spec fn real_view(self) -> Seq<(Seq<char>, Seq<RealCell>)> {
        self.real_cols@.map_values(|p: (usize, Vec<RealCell>)| (self.names@[p.0 as int]@, p.1@))
    }

    /// The logical columns: (name, cells) in arrival order.
    pub closed spec fn logic_view(self) -> Seq<(Seq<char>, Seq<i32>)> {
        self.logical_cols@.map_values(|p: (usize, Vec<i32>)| (self.names@[p.0 as int]@, p.1@))
    }

    /// Every stored column index points into the name list.
    pub closed spec fn wf(self) -> bool {
        &&& forall|i: int|
            0 <= i < self.string_cols@.len() ==> (#[trigger] self.string_cols@[i]).0 < self.names@.len()
        &&& forall|i: int|
            0 <= i < self.int_cols@.len() ==> (#[trigger] self.int_cols@[i]).0 < self.names@.len()
        &&& forall|i: int|
            0 <= i < self.real_cols@.len() ==> (#[trigger] self.real_cols@[i]).0 < self.names@.len()
        &&& forall|i: int|
            0 <= i < self.logical_cols@.len() ==> (#[trigger] self.logical_cols@[i]).0
                < self.names@.len()
    }

    /// The entries a row contributes, in insertion order: text columns, then
    /// integer, then measure, then logical columns.
    pub open spec fn row_entries(self, row: int) -> Seq<(Seq<char>, PropView)> {
        string_entries(self.string_view(), row) + int_entries(self.int_view(), row)
            + real_entries(self.real_view(), row) + logic_entries(self.logic_view(), row)
    }

    /// The property map of a row.
    pub open spec fn row_props(self, row: int) -> Map<Seq<char>, PropView> {
        props_of_entries(self.row_entries(row))
    }

    /// Split typed columns by kind, keeping arrival order; columns beyond
    /// the name list are dropped.
    pub fn from_columns(col_names: Vec<String>, col_data: Vec<ColumnData>) -> (r:
        PreprocessedColumns)
        ensures
            r.wf(),
    {
        let mut string_cols: Vec<(usize, Vec<String>)> = Vec::new();
        let mut int_cols: Vec<(usize, Vec<i32>)> = Vec::new();
        let mut real_cols: Vec<(usize, Vec<RealCell>)> = Vec::new();
        let mut logical_cols: Vec<(usize, Vec<i32>)> = Vec::new();
        let n = col_names.len();
        let mut rest = col_data;
        let mut i: usize = 0;
        while rest.len() > 0 && i < n
            invariant
                forall|j: int| 0 <= j < string_cols@.len() ==> (#[trigger] string_cols@[j]).0 < n,
                forall|j: int| 0 <= j < int_cols@.len() ==> (#[trigger] int_cols@[j]).0 < n,
                forall|j: int| 0 <= j < real_cols@.len() ==> (#[trigger] real_cols@[j]).0 < n,
                forall|j: int| 0 <= j < logical_cols@.len() ==> (#[trigger] logical_cols@[j]).0 < n,
                n == col_names@.len(),
            decreases rest.len(),
        {
            let col = rest.remove(0);
            match col {
                ColumnData::Text(v) => {
                    string_cols.push((i, v));
                },
                ColumnData::Int(v) => {
                    int_cols.push((i, v));
                },
                ColumnData::Real(v) => {
                    real_cols.push((i, v));
                },
                ColumnData::Logic(v) => {
                    logical_cols.push((i, v));
                },
            }
            i = i + 1;
        }
        PreprocessedColumns { names: col_names, string_cols, int_cols, real_cols, logical_cols }
    }

    /// Build the property map of one row.
    pub fn build_properties(&self, row_idx: usize) -> (r: PropMap)
        requires
            self.wf(),
        ensures
            r.wf(),
            r@ == self.row_props(row_idx as int),
    {
        let row = row_idx;
        let mut props = PropMap::new();
        let ghost mut done: Seq<(Seq<char>, PropView)> = Seq::empty();
        proof {
            assert(props@ =~= props_of_entries(done));
        }
        let ns = self.string_cols.len();
        let mut i: usize = 0;
        while i < ns
            invariant
                i <= ns,
                self.wf(),
                props.wf(),
                ns == self.string_view().len(),
                done =~= string_entries(self.string_view().subrange(0, i as int), row as int),
                props@ == props_of_entries(done),
            decreases ns - i,
        {
            let (idx, vals) = &self.string_cols[i];
            let ghost pre = self.string_view().subrange(0, i as int);
            let ghost cur = self.string_view()[i as int];
            if row < vals.len() {
                let cell = &vals[row];
                if cell.as_str().unicode_len() > 0 {
                    let nm = &self.names[*idx];
                    props.insert(nm.as_str(), PropertyValue::Text(cell.clone()));
                    proof {
                        done = done + string_cell_entry(cur.0, cur.1, row as int);
                    }
                } else {
                    proof {
                        done = done + string_cell_entry(cur.0, cur.1, row as int);
                        assert(string_cell_entry(cur.0, cur.1, row as int) =~= Seq::<
                            (Seq<char>, PropView),
                        >::empty());
                    }
                }
            } else {
                proof {
                    done = done + string_cell_entry(cur.0, cur.1, row as int);
                    assert(string_cell_entry(cur.0, cur.1, row as int) =~= Seq::<
                        (Seq<char>, PropView),
                    >::empty());
                }
            }
            proof {
                assert(self.string_view().subrange(0, i + 1) =~= pre.push(cur));
                lemma_entries_snoc_string(pre, cur, row as int);
                lemma_props_of_entries_append_one(
                    string_entries(pre, row as int),
                    string_cell_entry(cur.0, cur.1, row as int),
                );
            }
            i = i + 1;
        }
        proof {
            assert(self.string_view().subrange(0, ns as int) =~= self.string_view());
        }
        let ni = self.int_cols.len();
        let mut i: usize = 0;
        while i < ni
            invariant
                i <= ni,
                self.wf(),
                props.wf(),
                ni == self.int_view().len(),
                done =~= string_entries(self.string_view(), row as int) + int_entries(
                    self.int_view().subrange(0, i as int),
                    row as int,
                ),
                props@ == props_of_entries(done),
            decreases ni - i,
        {
            let (idx, vals) = &self.int_cols[i];
            let ghost pre = self.int_view().subrange(0, i as int);
            let ghost cur = self.int_view()[i as int];
            if row < vals.len() {
                let val = vals[row];
                if val != i32::MIN {
                    let nm = &self.names[*idx];
                    let normalized: i64 = if val == -1 && is_boolean_field(nm.as_str()) {
                        1i64
                    } else {
                        val as i64
                    };
                    props.insert(nm.as_str(), PropertyValue::Integer(normalized));
                    proof {
                        done = done + int_cell_entry(cur.0, cur.1, row as int);
                    }
                } else {
                    proof {
                        done = done + int_cell_entry(cur.0, cur.1, row as int);
                        assert(int_cell_entry(cur.0, cur.1, row as int) =~= Seq::<
                            (Seq<char>, PropView),
                        >::empty());
                    }
                }
            } else {
                proof {
                    done = done + int_cell_entry(cur.0, cur.1, row as int);
                    assert(int_cell_entry(cur.0, cur.1, row as int) =~= Seq::<
                        (Seq<char>, PropView),
                    >::empty());
                }
            }
            proof {
                assert(self.int_view().subrange(0, i + 1) =~= pre.push(cur));
                lemma_entries_snoc_int(pre, cur, row as int);
                lemma_props_of_entries_append_one(
                    string_entries(self.string_view(), row as int) + int_entries(pre, row as int),
                    int_cell_entry(cur.0, cur.1, row as int),
                );
            }
            i = i + 1;
        }
        proof {
            assert(self.int_view().subrange(0, ni as int) =~= self.int_view());
        }
        let nr = self.real_cols.len();
        let mut i: usize = 0;
        while i < nr
            invariant
                i <= nr,
                self.wf(),
                props.wf(),
                nr == self.real_view().len(),
                done =~= string_entries(self.string_view(), row as int) + int_entries(
                    self.int_view(),
                    row as int,
                ) + real_entries(self.real_view().subrange(0, i as int), row as int),
                props@ == props_of_entries(done),
            decreases nr - i,
        {
            let (idx, vals) = &self.real_cols[i];
            let ghost pre = self.real_view().subrange(0, i as int);
            let ghost cur = self.real_view()[i as int];
            if row < vals.len() {
                let nm = &self.names[*idx];
                match vals[row] {
                    RealCell::Missing => {
                        proof {
                            done = done + real_cell_entry(cur.0, cur.1, row as int);
                            assert(real_cell_entry(cur.0, cur.1, row as int) =~= Seq::<
                                (Seq<char>, PropView),
                            >::empty());
                        }
                    },
                    RealCell::Whole(w) => {
                        let normalized: i64 = if w == -1 && is_boolean_field(nm.as_str()) {
                            1i64
                        } else {
                            w
                        };
                        props.insert(nm.as_str(), PropertyValue::Integer(normalized));
                        proof {
                            done = done + real_cell_entry(cur.0, cur.1, row as int);
                        }
                    },
                    RealCell::Tenths(t) => {
                        props.insert(nm.as_str(), PropertyValue::Decimal(t));
                        proof {
                            done = done + real_cell_entry(cur.0, cur.1, row as int);
                        }
                    },
                }
            } else {
                proof {
                    done = done + real_cell_entry(cur.0, cur.1, row as int);
                    assert(real_cell_entry(cur.0, cur.1, row as int) =~= Seq::<
                        (Seq<char>, PropView),
                    >::empty());
                }
            }
            proof {
                assert(self.real_view().subrange(0, i + 1) =~= pre.push(cur));
                lemma_entries_snoc_real(pre, cur, row as int);
                lemma_props_of_entries_append_one(
                    string_entries(self.string_view(), row as int) + int_entries(
                        self.int_view(),
                        row as int,
                    ) + real_entries(pre, row as int),
                    real_cell_entry(cur.0, cur.1, row as int),
                );
            }
            i = i + 1;
        }
        proof {
            assert(self.real_view().subrange(0, nr as int) =~= self.real_view());
        }
        let nl = self.logical_cols.len();
        let mut i: usize = 0;
        while i < nl
            invariant
                i <= nl,
                self.wf(),
                props.wf(),
                nl == self.logic_view().len(),
                done =~= string_entries(self.string_view(), row as int) + int_entries(
                    self.int_view(),
                    row as int,
                ) + real_entries(self.real_view(), row as int) + logic_entries(
                    self.logic_view().subrange(0, i as int),
                    row as int,
                ),
                props@ == props_of_entries(done),
            decreases nl - i,
        {
            let (idx, vals) = &self.logical_cols[i];
            let ghost pre = self.logic_view().subrange(0, i as int);
            let ghost cur = self.logic_view()[i as int];
            if row < vals.len() {
                let val = vals[row];
                if val != i32::MIN {
                    let nm = &self.names[*idx];
                    props.insert(nm.as_str(), PropertyValue::Boolean(val != 0));
                    proof {
                        done = done + logic_cell_entry(cur.0, cur.1, row as int);
                    }
                } else {
                    proof {
                        done = done + logic_cell_entry(cur.0, cur.1, row as int);
                        assert(logic_cell_entry(cur.0, cur.1, row as int) =~= Seq::<
                            (Seq<char>, PropView),
                        >::empty());
                    }
                }
            } else {
                proof {
                    done = done + logic_cell_entry(cur.0, cur.1, row as int);
                    assert(logic_cell_entry(cur.0, cur.1, row as int) =~= Seq::<
                        (Seq<char>, PropView),
                    >::empty());
                }
            }
            proof {
                assert(self.logic_view().subrange(0, i + 1) =~= pre.push(cur));
                lemma_entries_snoc_logic(pre, cur, row as int);
                lemma_props_of_entries_append_one(
                    string_entries(self.string_view(), row as int) + int_entries(
                        self.int_view(),
                        row as int,
                    ) + real_entries(self.real_view(), row as int) + logic_entries(
                        pre,
                        row as int,
                    ),
                    logic_cell_entry(cur.0, cur.1, row as int),
                );
            }
            i = i + 1;
        }
        proof {
            assert(self.logic_view().subrange(0, nl as int) =~= self.logic_view());
        }
        props
    }
}

/// The entries all text columns contribute for a row, in order.
pub open spec fn string_entries(cols: Seq<(Seq<char>, Seq<Seq<char>>)>, row: int) -> Seq<
    (Seq<char>, PropView),
>
    decreases cols.len(),
{
    if cols.len() == 0 {
        Seq::empty()
    } else {
        string_entries(cols.drop_last(), row) + string_cell_entry(
            cols.last().0,
            cols.last().1,
            row,
        )
    }
}

/// The entries all integer columns contribute for a row, in order.
pub open spec fn int_entries(cols: Seq<(Seq<char>, Seq<i32>)>, row: int) -> Seq<
    (Seq<char>, PropView),
>
    decreases cols.len(),
{
    if cols.len() == 0 {
        Seq::empty()
    } else {
        int_entries(cols.drop_last(), row) + int_cell_entry(cols.last().0, cols.last().1, row)
    }
}

/// The entries all measure columns contribute for a row, in order.
pub open spec fn real_entries(cols: Seq<(Seq<char>, Seq<RealCell>)>, row: int) -> Seq<
    (Seq<char>, PropView),
>
    decreases cols.len(),
{
    if cols.len() == 0 {
        Seq::empty()
    } else {
        real_entries(cols.drop_last(), row) + real_cell_entry(cols.last().0, cols.last().1, row)
    }
}

/// The entries all logical columns contribute for a row, in order.
pub open spec fn logic_entries(cols: Seq<(Seq<char>, Seq<i32>)>, row: int) -> Seq<
    (Seq<char>, PropView),
>
    decreases cols.len(),
{
    if cols.len() == 0 {
        Seq::empty()
    } else {
        logic_entries(cols.drop_last(), row) + logic_cell_entry(cols.last().0, cols.last().1, row)
    }
}

proof fn lemma_entries_snoc_string(pre: Seq<(Seq<char>, Seq<Seq<char>>)>, cur: (Seq<char>, Seq<Seq<char>>), row: int)
    ensures
        string_entries(pre.push(cur), row) == string_entries(pre, row) + string_cell_entry(
            cur.0,
            cur.1,
            row,
        ),
{
    assert(pre.push(cur).drop_last() =~= pre);
    assert(pre.push(cur).last() == cur);
}

proof fn lemma_entries_snoc_int(pre: Seq<(Seq<char>, Seq<i32>)>, cur: (Seq<char>, Seq<i32>), row: int)
    ensures
        int_entries(pre.push(cur), row) == int_entries(pre, row) + int_cell_entry(
            cur.0,
            cur.1,
            row,
        ),
{
    assert(pre.push(cur).drop_last() =~= pre);
    assert(pre.push(cur).last() == cur);
}

proof fn lemma_entries_snoc_real(pre: Seq<(Seq<char>, Seq<RealCell>)>, cur: (Seq<char>, Seq<RealCell>), row: int)
    ensures
        real_entries(pre.push(cur), row) == real_entries(pre, row) + real_cell_entry(
            cur.0,
            cur.1,
            row,
        ),
{
    assert(pre.push(cur).drop_last() =~= pre);
    assert(pre.push(cur).last() == cur);
}

proof fn lemma_entries_snoc_logic(pre: Seq<(Seq<char>, Seq<i32>)>, cur: (Seq<char>, Seq<i32>), row: int)
    ensures
        logic_entries(pre.push(cur), row) == logic_entries(pre, row) + logic_cell_entry(
            cur.0,
            cur.1,
            row,
        ),
{
    assert(pre.push(cur).drop_last() =~= pre);
    assert(pre.push(cur).last() == cur);
}

/// Appending at most one entry to a fold.
proof fn lemma_props_of_entries_append_one(
    done: Seq<(Seq<char>, PropView)>,
    one: Seq<(Seq<char>, PropView)>,
)
    requires
        one.len() <= 1,
    ensures
        one.len() == 0 ==> props_of_entries(done + one) == props_of_entries(done),
        one.len() == 1 ==> props_of_entries(done + one) == props_of_entries(done).insert(
            one[0].0,
            one[0].1,
        ),
{
    if one.len() == 0 {
        assert(done + one =~= done);
    } else {
        assert((done + one).drop_last() =~= done);
        assert((done + one).last() == one[0]);
    }
}

} // verus!
