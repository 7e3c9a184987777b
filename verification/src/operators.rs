//! The pull-based (Volcano) operator pipeline: every operator implements
//! `open` / `next` / `close`, and demand propagates upstream one row at a
//! time.

use vstd::prelude::*;

use vstd::multiset::Multiset;

use crate::eval::Schema;
use crate::eval::spec_eval;
use crate::row::Row;
use crate::sql::Expr;

verus! {

/// The view of one row: its fields' characters.
pub type RowV = Seq<Seq<char>>;

/// The views of a sequence of rows.
pub open spec fn row_views(rs: Seq<Row>) -> Seq<RowV> {
    rs.map_values(|r: Row| r@)
}

/// The rows of `rs` that satisfy the predicate, head first.
pub open spec fn filtered(schema: Seq<Seq<char>>, e: crate::sql::ExprV, rs: Seq<RowV>) -> Seq<
    RowV,
>
    decreases rs.len(),
{
    if rs.len() == 0 {
        Seq::empty()
    } else if spec_eval(schema, e, rs[0]) {
        seq![rs[0]] + filtered(schema, e, rs.drop_first())
    } else {
        filtered(schema, e, rs.drop_first())
    }
}

/// The fields of one row picked out by a column-index list, in the requested
/// order; an index past the row's last field selects nothing.
pub open spec fn spec_project_row(cols: Seq<usize>, r: RowV) -> RowV
    decreases cols.len(),
{
    if cols.len() == 0 {
        Seq::empty()
    } else {
        let rest = spec_project_row(cols.drop_first(), r);
        if (cols[0] as int) < r.len() {
            seq![r[cols[0] as int]] + rest
        } else {
            rest
        }
    }
}

/// At most the first `n` rows of `s`.
pub open spec fn take_at_most(s: Seq<RowV>, n: int) -> Seq<RowV> {
    if n <= s.len() {
        s.take(n)
    } else {
        s
    }
}

/// The sort key of a row: its field at the key column, or nothing when the
/// row is too short; a missing key orders before every present one.
pub open spec fn row_key(r: RowV, k: int) -> Option<Seq<char>> {
    if 0 <= k < r.len() {
        Some(r[k])
    } else {
        None
    }
}

/// Non-strict order of two rows by their key column.
pub open spec fn key_le(a: RowV, b: RowV, k: int) -> bool {
    match (row_key(a, k), row_key(b, k)) {
        (None, _) => true,
        (Some(_), None) => false,
        (Some(x), Some(y)) => !crate::text::chars_lt(y, x),
    }
}

/// `r` inserted after every row whose key is not above it: the stable
/// insertion position.
pub open spec fn insert_sorted(r: RowV, s: Seq<RowV>, k: int) -> Seq<RowV>
    decreases s.len(),
{
    if s.len() == 0 {
        seq![r]
    } else if key_le(s[0], r, k) {
        seq![s[0]] + insert_sorted(r, s.drop_first(), k)
    } else {
        seq![r] + s
    }
}

/// Stable insertion sort of a row sequence by a key column.
pub open spec fn sort_rows(s: Seq<RowV>, k: int) -> Seq<RowV>
    decreases s.len(),
{
    if s.len() == 0 {
        Seq::empty()
    } else {
        insert_sorted(s.last(), sort_rows(s.drop_last(), k), k)
    }
}

/// The equality join condition: the left row's field at one column equals
/// the right row's field at another; two missing fields also match.
pub open spec fn join_cond(a: RowV, b: RowV, jl: int, jr: int) -> bool {
    row_key(a, jl) == row_key(b, jr)
}

/// The concatenated match rows of the left-row-major, right-row-minor walk of
/// the cross product, starting at indices `(li, ri)`.
pub open spec fn matches_from(
    l: Seq<RowV>,
    r: Seq<RowV>,
    jl: int,
    jr: int,
    li: int,
    ri: int,
) -> Seq<RowV>
    decreases l.len() - li, r.len() - ri,
{
    if !(0 <= li < l.len()) || !(0 <= ri <= r.len()) {
        Seq::empty()
    } else if ri == r.len() {
        matches_from(l, r, jl, jr, li + 1, 0)
    } else {
        (if join_cond(l[li], r[ri], jl, jr) {
            seq![l[li] + r[ri]]
        } else {
            Seq::empty()
        }) + matches_from(l, r, jl, jr, li, ri + 1)
    }
}

/// The three-operation protocol every operator implements. An operator holds
/// a (possibly empty) stream of rows: `remaining()` is what it would still
/// produce from its current state, `after_open()` what it produces once
/// opened. `next` hands out the head of the stream; past the end it keeps
/// answering `None`.
pub trait Operator {
    /// The operator's internal invariant.
    spec fn wf(&self) -> bool;

    /// The depth of the operator tree under this node.
    spec fn height(&self) -> nat;

    /// The rows this operator would still produce from its current state.
    spec fn remaining(&self) -> Seq<RowV>;

    /// The rows this operator produces once opened.
    spec fn after_open(&self) -> Seq<RowV>;

    /// Prepare for iteration; a blocking operator materializes its upstream
    /// here.
    fn open(&mut self)
        requires
            old(self).wf(),
        ensures
            final(self).wf(),
            final(self).height() == old(self).height(),
            final(self).remaining() == old(self).after_open(),
    ;

    /// Produce the next row, or report the end of the stream.
    fn next(&mut self) -> (r: Option<Row>)
        requires
            old(self).wf(),
        ensures
            final(self).wf(),
            final(self).height() == old(self).height(),
            match r {
                Some(row) => old(self).remaining().len() > 0 && row@ == old(
                    self,
                ).remaining()[0] && final(self).remaining() == old(self).remaining().drop_first(),
                None => old(self).remaining().len() == 0 && final(self).remaining() == old(
                    self,
                ).remaining(),
            },
    ;

    /// Release resources; propagates upstream.
    fn close(&self);
}

/// Source of rows held as an owned, order-preserving sequence; always the
/// first operator in a pipeline.
#[derive(Debug)]
pub struct Scan {
    pub rows: Vec<Row>,
    pub pos: usize,
}

impl Scan {
    /// Create a new `Scan` operator over a batch of rows.
    pub fn new(rows: &[Row]) -> (r: Self)
        ensures
            r.wf(),
            r.remaining() == row_views(rows@),
            r.after_open() == row_views(rows@),
    {
        let mut v: Vec<Row> = Vec::new();
        let mut i: usize = 0;
        while i < rows.len()
            invariant
                i <= rows@.len(),
                v@.len() == i,
                forall|j: int| 0 <= j < i ==> (#[trigger] v@[j])@ == rows@[j]@,
            decreases rows@.len() - i,
        {
            v.push(rows[i].clone());
            i = i + 1;
        }
        proof {
            assert(row_views(v@) =~= row_views(rows@));
        }
        let r = Self { rows: v, pos: 0 };
        proof {
            assert(r.remaining() =~= row_views(rows@));
        }
        r
    }
}

impl Operator for Scan {
    open spec fn wf(&self) -> bool {
        self.pos <= self.rows@.len()
    }

    open spec fn height(&self) -> nat {
        0
    }

    open spec fn remaining(&self) -> Seq<RowV> {
        row_views(self.rows@).skip(self.pos as int)
    }

    open spec fn after_open(&self) -> Seq<RowV> {
        self.remaining()
    }

    fn open(&mut self) {
    }

    fn next(&mut self) -> (r: Option<Row>) {
        if self.pos < self.rows.len() {
            let row = self.rows[self.pos].clone();
            self.pos = self.pos + 1;
            proof {
                assert(final(self).remaining() =~= old(self).remaining().drop_first());
            }
            Some(row)
        } else {
            None
        }
    }

    fn close(&self) {
    }
}

/// Passes on the rows that satisfy its predicate; fully streaming.
#[derive(Debug)]
pub struct Filter {
    pub input: Box<Pipeline>,
    pub schema: Schema,
    pub predicate: Expr,
}

impl Filter {
    /// Creates a new `Filter` operator with the given upstream operator and
    /// predicate, resolved against the given schema.
    pub fn new(operator: Pipeline, predicate: Expr, schema: Schema) -> (r: Self)
        requires
            operator.wf(),
        ensures
            r.wf(),
            r.remaining() == filtered(schema@, predicate@, operator.remaining()),
            r.after_open() == filtered(schema@, predicate@, operator.after_open()),
    {
        Self { input: Box::new(operator), schema, predicate }
    }
}

impl Operator for Filter {
    open spec fn wf(&self) -> bool
        decreases self,
    {
        (*self.input).wf()
    }

    open spec fn height(&self) -> nat
        decreases self,
    {
        (*self.input).height() + 1
    }

    open spec fn remaining(&self) -> Seq<RowV>
        decreases self,
    {
        filtered(self.schema@, self.predicate@, (*self.input).remaining())
    }

    open spec fn after_open(&self) -> Seq<RowV>
        decreases self,
    {
        filtered(self.schema@, self.predicate@, (*self.input).after_open())
    }

    fn open(&mut self)
        decreases old(self).height(), 0int,
    {
        (*self.input).open();
    }

    fn next(&mut self) -> (r: Option<Row>)
        decreases old(self).height(), 0int,
    {
        loop
            invariant
                (*self.input).wf(),
                self.schema == old(self).schema,
                self.predicate == old(self).predicate,
                (*self.input).height() == (*old(self).input).height(),
                old(self).remaining() == filtered(
                    self.schema@,
                    self.predicate@,
                    (*self.input).remaining(),
                ),
            decreases (*self.input).remaining().len(),
        {
            let ghost up_before = (*self.input).remaining();
            match (*self.input).next() {
                Some(row) => {
                    if crate::eval::eval(&self.schema, &self.predicate, &row) {
                        proof {
                            assert(filtered(self.schema@, self.predicate@, up_before) == seq![
                                row@,
                            ] + filtered(
                                self.schema@,
                                self.predicate@,
                                (*self.input).remaining(),
                            ));
                            assert((seq![row@] + filtered(
                                self.schema@,
                                self.predicate@,
                                (*self.input).remaining(),
                            ))[0] == row@);
                            assert((seq![row@] + filtered(
                                self.schema@,
                                self.predicate@,
                                (*self.input).remaining(),
                            )).drop_first() =~= filtered(
                                self.schema@,
                                self.predicate@,
                                (*self.input).remaining(),
                            ));
                        }
                        return Some(row);
                    }
                    proof {
                        assert(filtered(self.schema@, self.predicate@, up_before) == filtered(
                            self.schema@,
                            self.predicate@,
                            (*self.input).remaining(),
                        ));
                    }
                },
                None => {
                    return None;
                },
            }
        }
    }

    fn close(&self)
        decreases self.height(), 0int,
    {
        (*self.input).close();
    }
}

/// One row mapped to the requested columns, in the requested order.
fn project_row(columns: &Vec<usize>, row: &Row) -> (r: Row)
    ensures
        r@ == spec_project_row(columns@, row@),
{
    let ghost cols = columns@;
    let mut items: Vec<String> = Vec::new();
    let mut i: usize = 0;
    proof {
        assert(cols.skip(0) =~= cols);
    }
    while i < columns.len()
        invariant
            i <= cols.len(),
            columns@ == cols,
            spec_project_row(cols, row@) =~= crate::sql::string_views(items@)
                + spec_project_row(cols.skip(i as int), row@),
        decreases cols.len() - i,
    {
        let ghost items0 = items@;
        proof {
            assert(cols.skip(i as int)[0] == cols[i as int]);
            assert(cols.skip(i as int).drop_first() =~= cols.skip(i + 1));
        }
        match row.get(columns[i]) {
            Some(s) => {
                items.push(s.to_owned());
                proof {
                    assert(crate::sql::string_views(items@) =~= crate::sql::string_views(items0)
                        + seq![row@[cols[i as int] as int]]);
                    assert(crate::sql::string_views(items0) + (seq![row@[cols[i as int] as int]]
                        + spec_project_row(cols.skip(i + 1), row@)) =~= crate::sql::string_views(
                        items@,
                    ) + spec_project_row(cols.skip(i + 1), row@));
                }
            },
            None => {},
        }
        i = i + 1;
    }
    proof {
        assert(spec_project_row(cols.skip(cols.len() as int), row@) =~= Seq::<Seq<char>>::empty());
        assert(spec_project_row(cols, row@) =~= crate::sql::string_views(items@));
    }
    let r = Row { items };
    proof {
        assert(r@ =~= spec_project_row(cols, row@));
    }
    r
}

/// Maps each incoming row to a new row holding only the requested columns.
#[derive(Debug)]
pub struct Project {
    pub input: Box<Pipeline>,
    pub columns: Vec<usize>,
}

impl Project {
    /// Create a new projection operator using an upstream operator and a list
    /// of projected columns.
    pub fn new(operator: Pipeline, columns: &[usize]) -> (r: Self)
        requires
            operator.wf(),
        ensures
            r.wf(),
            r.remaining() == operator.remaining().map_values(
                |row: RowV| spec_project_row(columns@, row),
            ),
            r.after_open() == operator.after_open().map_values(
                |row: RowV| spec_project_row(columns@, row),
            ),
    {
        let cols = vstd::slice::slice_to_vec(columns);
        Self { input: Box::new(operator), columns: cols }
    }
}

impl Operator for Project {
    open spec fn wf(&self) -> bool
        decreases self,
    {
        (*self.input).wf()
    }

    open spec fn height(&self) -> nat
        decreases self,
    {
        (*self.input).height() + 1
    }

    open spec fn remaining(&self) -> Seq<RowV>
        decreases self,
    {
        (*self.input).remaining().map_values(|row: RowV| spec_project_row(self.columns@, row))
    }

    open spec fn after_open(&self) -> Seq<RowV>
        decreases self,
    {
        (*self.input).after_open().map_values(|row: RowV| spec_project_row(self.columns@, row))
    }

    fn open(&mut self)
        decreases old(self).height(), 0int,
    {
        (*self.input).open();
    }

    fn next(&mut self) -> (r: Option<Row>)
        decreases old(self).height(), 0int,
    {
        let ghost up_before = (*self.input).remaining();
        match (*self.input).next() {
            Some(row) => {
                let projected = project_row(&self.columns, &row);
                proof {
                    assert(final(self).remaining() =~= old(self).remaining().drop_first());
                }
                Some(projected)
            },
            None => {
                proof {
                    assert(old(self).remaining().len() == 0);
                }
                None
            },
        }
    }

    fn close(&self)
        decreases self.height(), 0int,
    {
        (*self.input).close();
    }
}

/// Passes through the first N rows, then reports end-of-stream without
/// pulling its upstream any further.
#[derive(Debug)]
pub struct Limit {
    pub input: Box<Pipeline>,
    pub limit: usize,
    pub count: usize,
}

impl Limit {
    /// Creates a new `Limit` operator with the given input operator and limit.
    pub fn new(operator: Pipeline, limit: usize) -> (r: Self)
        requires
            operator.wf(),
        ensures
            r.wf(),
            r.remaining() == take_at_most(operator.remaining(), limit as int),
            r.after_open() == take_at_most(operator.after_open(), limit as int),
    {
        Self { input: Box::new(operator), limit, count: 0 }
    }
}

impl Operator for Limit {
    open spec fn wf(&self) -> bool
        decreases self,
    {
        (*self.input).wf() && self.count <= self.limit
    }

    open spec fn height(&self) -> nat
        decreases self,
    {
        (*self.input).height() + 1
    }

    open spec fn remaining(&self) -> Seq<RowV>
        decreases self,
    {
        take_at_most((*self.input).remaining(), self.limit - self.count)
    }

    open spec fn after_open(&self) -> Seq<RowV>
        decreases self,
    {
        take_at_most((*self.input).after_open(), self.limit - self.count)
    }

    fn open(&mut self)
        decreases old(self).height(), 0int,
    {
        (*self.input).open();
    }

    fn next(&mut self) -> (r: Option<Row>)
        decreases old(self).height(), 0int,
    {
        if self.count < self.limit {
            let ghost up_before = (*self.input).remaining();
            match (*self.input).next() {
                Some(row) => {
                    self.count = self.count + 1;
                    proof {
                        assert(old(self).remaining()[0] == up_before[0]);
                        assert(final(self).remaining() =~= old(self).remaining().drop_first());
                    }
                    return Some(row);
                },
                None => {
                    proof {
                        assert(old(self).remaining().len() == 0);
                        assert(final(self).remaining() =~= old(self).remaining());
                    }
                    return None;
                },
            }
        }
        proof {
            let up = (*old(self).input).remaining();
            assert(old(self).remaining() == take_at_most(up, 0));
            assert(up.take(0) =~= Seq::<RowV>::empty());
            assert(final(self).remaining() == old(self).remaining());
        }
        None
    }

    fn close(&self)
        decreases self.height(), 0int,
    {
        (*self.input).close();
    }
}

/// Non-strict key order, decided on two rows.
fn row_key_le(a: &Row, b: &Row, k: usize) -> (r: bool)
    ensures
        r == key_le(a@, b@, k as int),
{
    match (a.get(k), b.get(k)) {
        (None, _) => true,
        (Some(_), None) => false,
        (Some(x), Some(y)) => !crate::text::str_lt(y, x),
    }
}

/// Insert a row into a key-sorted vector at its stable position: after every
/// row whose key is not above it.
fn insert_row(v: &mut Vec<Row>, row: Row, key: usize)
    ensures
        row_views(final(v)@) == insert_sorted(row@, row_views(old(v)@), key as int),
{
    let ghost vs = row_views(v@);
    let ghost rv = row@;
    let mut i: usize = 0;
    proof {
        assert(vs.skip(0) =~= vs);
    }
    loop
        invariant_except_break
            i <= v@.len(),
            v == old(v),
            vs == row_views(v@),
            rv == row@,
            insert_sorted(rv, vs, key as int) == vs.take(i as int) + insert_sorted(
                rv,
                vs.skip(i as int),
                key as int,
            ),
        ensures
            i <= v@.len(),
            v == old(v),
            vs == row_views(v@),
            insert_sorted(rv, vs, key as int) == vs.take(i as int) + (seq![rv] + vs.skip(
                i as int,
            )),
        decreases v@.len() - i,
    {
        if i >= v.len() {
            proof {
                assert(vs.skip(i as int).len() == 0);
                assert(insert_sorted(rv, vs.skip(i as int), key as int) =~= seq![rv] + vs.skip(
                    i as int,
                ));
            }
            break;
        }
        if !row_key_le(&v[i], &row, key) {
            proof {
                assert(vs.skip(i as int)[0] == vs[i as int]);
                assert(insert_sorted(rv, vs.skip(i as int), key as int) =~= seq![rv] + vs.skip(
                    i as int,
                ));
            }
            break;
        }
        proof {
            assert(vs.skip(i as int)[0] == vs[i as int]);
            assert(vs.skip(i as int).drop_first() =~= vs.skip(i + 1));
            assert(vs.take(i as int) + (seq![vs[i as int]] + insert_sorted(
                rv,
                vs.skip(i + 1),
                key as int,
            )) =~= vs.take(i + 1) + insert_sorted(rv, vs.skip(i + 1), key as int));
        }
        i = i + 1;
    }
    v.insert(i, row);
    proof {
        assert(row_views(v@) =~= vs.take(i as int) + (seq![rv] + vs.skip(i as int)));
    }
}

/// Blocking: fully materializes its upstream on construction, sorts it stably
/// by the key column, and then serves from the sorted sequence.
#[derive(Debug)]
pub struct Sort {
    pub rows: Vec<Row>,
    pub pos: usize,
}

impl Sort {
    /// Creates a new `Sort` operator that drains the given upstream operator
    /// and stable-sorts its rows by the key column, missing keys first,
    /// otherwise lexicographically.
    pub fn new(input: Pipeline, key: usize) -> (r: Self)
        requires
            input.wf(),
        ensures
            r.wf(),
            r.remaining() == sort_rows(input.after_open(), key as int),
            r.after_open() == sort_rows(input.after_open(), key as int),
    {
        let mut upstream = input;
        let ghost total = upstream.after_open();
        upstream.open();
        let mut buf: Vec<Row> = Vec::new();
        loop
            invariant_except_break
                upstream.wf(),
                row_views(buf@) + upstream.remaining() =~= total,
            ensures
                upstream.wf(),
                row_views(buf@) == total,
            decreases upstream.remaining().len(),
        {
            let ghost bv = row_views(buf@);
            match upstream.next() {
                Some(row) => {
                    buf.push(row);
                    proof {
                        assert(row_views(buf@) =~= bv + seq![buf@.last()@]);
                        assert(row_views(buf@) + upstream.remaining() =~= total);
                    }
                },
                None => {
                    proof {
                        assert(row_views(buf@) =~= total);
                    }
                    break;
                },
            }
        }
        upstream.close();
        let mut sorted: Vec<Row> = Vec::new();
        let mut i: usize = 0;
        while i < buf.len()
            invariant
                i <= buf@.len(),
                row_views(buf@) == total,
                row_views(sorted@) == sort_rows(total.take(i as int), key as int),
            decreases buf@.len() - i,
        {
            insert_row(&mut sorted, buf[i].clone(), key);
            proof {
                assert(total.take(i + 1).drop_last() =~= total.take(i as int));
                assert(total.take(i + 1).last() == total[i as int]);
                assert(buf@[i as int]@ == total[i as int]);
            }
            i = i + 1;
        }
        proof {
            assert(total.take(total.len() as int) =~= total);
        }
        let r = Self { rows: sorted, pos: 0 };
        proof {
            assert(r.remaining() =~= row_views(r.rows@));
        }
        r
    }
}

impl Operator for Sort {
    open spec fn wf(&self) -> bool {
        self.pos <= self.rows@.len()
    }

    open spec fn height(&self) -> nat {
        0
    }

    open spec fn remaining(&self) -> Seq<RowV> {
        row_views(self.rows@).skip(self.pos as int)
    }

    open spec fn after_open(&self) -> Seq<RowV> {
        self.remaining()
    }

    fn open(&mut self) {
    }

    fn next(&mut self) -> (r: Option<Row>) {
        if self.pos < self.rows.len() {
            let row = self.rows[self.pos].clone();
            self.pos = self.pos + 1;
            proof {
                assert(final(self).remaining() =~= old(self).remaining().drop_first());
            }
            Some(row)
        } else {
            None
        }
    }

    fn close(&self) {
    }
}

/// The two columns an equality join matches on: one field position per side.
#[derive(Debug, Clone, Copy, PartialEq, Eq, Structural)]
pub struct JoinOn {
    pub left: usize,
    pub right: usize,
}

/// The join condition, decided on two rows.
fn join_matches(a: &Row, b: &Row, on: JoinOn) -> (r: bool)
    ensures
        r == join_cond(a@, b@, on.left as int, on.right as int),
{
    match (a.get(on.left), b.get(on.right)) {
        (None, None) => true,
        (Some(x), Some(y)) => crate::text::str_eq(x, y),
        _ => false,
    }
}

/// A new row holding the left row's fields followed by the right row's.
fn concat_rows(a: &Row, b: &Row) -> (r: Row)
    ensures
        r@ == a@ + b@,
{
    let mut items: Vec<String> = Vec::new();
    let mut i: usize = 0;
    while i < a.items.len()
        invariant
            i <= a@.len(),
            crate::sql::string_views(items@) =~= a@.take(i as int),
        decreases a@.len() - i,
    {
        let ghost sv = crate::sql::string_views(items@);
        items.push(a.items[i].clone());
        proof {
            assert(crate::sql::string_views(items@) =~= sv + seq![a@[i as int]]);
            assert(sv + seq![a@[i as int]] =~= a@.take(i + 1));
        }
        i = i + 1;
    }
    let mut j: usize = 0;
    while j < b.items.len()
        invariant
            j <= b@.len(),
            crate::sql::string_views(items@) =~= a@ + b@.take(j as int),
        decreases b@.len() - j,
    {
        let ghost sv = crate::sql::string_views(items@);
        items.push(b.items[j].clone());
        proof {
            assert(crate::sql::string_views(items@) =~= sv + seq![b@[j as int]]);
            assert(sv + seq![b@[j as int]] =~= a@ + b@.take(j + 1));
        }
        j = j + 1;
    }
    proof {
        assert(a@.take(a@.len() as int) =~= a@);
        assert(b@.take(b@.len() as int) =~= b@);
    }
    let r = Row { items };
    proof {
        assert(r@ =~= a@ + b@);
    }
    r
}

/// Blocking nested-loop join: on `open` both sides are materialized; `next`
/// walks the left-row-major cross product and emits a concatenated row for
/// each pair the condition accepts.
#[derive(Debug)]
pub struct Join {
    pub left: Box<Pipeline>,
    pub right: Box<Pipeline>,
    pub condition: JoinOn,
    pub left_rows: Vec<Row>,
    pub right_rows: Vec<Row>,
    pub left_index: usize,
    pub right_index: usize,
}

impl Join {
    /// Creates a new `Join` operator over two upstream operators and an
    /// equality condition on one column of each side.
    pub fn new(left: Pipeline, right: Pipeline, condition: JoinOn) -> (r: Self)
        requires
            left.wf(),
            right.wf(),
        ensures
            r.wf(),
            r.remaining() == Seq::<RowV>::empty(),
            r.after_open() == matches_from(
                left.after_open(),
                right.after_open(),
                condition.left as int,
                condition.right as int,
                0,
                0,
            ),
    {
        let r = Self {
            left: Box::new(left),
            right: Box::new(right),
            condition,
            left_rows: Vec::new(),
            right_rows: Vec::new(),
            left_index: 0,
            right_index: 0,
        };
        proof {
            assert(row_views(r.left_rows@) =~= Seq::<RowV>::empty());
            assert(row_views(r.right_rows@) =~= Seq::<RowV>::empty());
            assert(row_views(r.left_rows@) + left.after_open() =~= left.after_open());
            assert(row_views(r.right_rows@) + right.after_open() =~= right.after_open());
        }
        r
    }
}

impl Operator for Join {
    open spec fn wf(&self) -> bool
        decreases self,
    {
        (*self.left).wf() && (*self.right).wf() && self.left_index <= self.left_rows@.len()
            && self.right_index <= self.right_rows@.len()
    }

    open spec fn height(&self) -> nat
        decreases self,
    {
        let a = (*self.left).height();
        let b = (*self.right).height();
        (if a >= b {
            a
        } else {
            b
        }) + 1
    }

    open spec fn remaining(&self) -> Seq<RowV>
        decreases self,
    {
        matches_from(
            row_views(self.left_rows@),
            row_views(self.right_rows@),
            self.condition.left as int,
            self.condition.right as int,
            self.left_index as int,
            self.right_index as int,
        )
    }

    open spec fn after_open(&self) -> Seq<RowV>
        decreases self,
    {
        matches_from(
            row_views(self.left_rows@) + (*self.left).after_open(),
            row_views(self.right_rows@) + (*self.right).after_open(),
            self.condition.left as int,
            self.condition.right as int,
            0,
            0,
        )
    }

    fn open(&mut self)
        decreases old(self).height(), 0int,
    {
        let ghost l_target = row_views(old(self).left_rows@) + (*old(self).left).after_open();
        let ghost r_target = row_views(old(self).right_rows@) + (*old(self).right).after_open();
        (*self.left).open();
        loop
            invariant_except_break
                (*self.left).wf(),
                (*self.left).height() == (*old(self).left).height(),
                self.right == old(self).right,
                self.right_rows == old(self).right_rows,
                self.condition == old(self).condition,
                row_views(self.left_rows@) + (*self.left).remaining() =~= l_target,
            ensures
                (*self.left).wf(),
                (*self.left).height() == (*old(self).left).height(),
                self.right == old(self).right,
                self.right_rows == old(self).right_rows,
                self.condition == old(self).condition,
                row_views(self.left_rows@) == l_target,
            decreases (*self.left).remaining().len(),
        {
            let ghost bv = row_views(self.left_rows@);
            match (*self.left).next() {
                Some(row) => {
                    self.left_rows.push(row);
                    proof {
                        assert(row_views(self.left_rows@) =~= bv + seq![
                            self.left_rows@.last()@,
                        ]);
                        assert(row_views(self.left_rows@) + (*self.left).remaining() =~= l_target);
                    }
                },
                None => {
                    proof {
                        assert(row_views(self.left_rows@) =~= l_target);
                    }
                    break;
                },
            }
        }
        (*self.right).open();
        loop
            invariant_except_break
                (*self.right).wf(),
                (*self.right).height() == (*old(self).right).height(),
                (*self.left).wf(),
                (*self.left).height() == (*old(self).left).height(),
                self.condition == old(self).condition,
                row_views(self.left_rows@) == l_target,
                row_views(self.right_rows@) + (*self.right).remaining() =~= r_target,
            ensures
                (*self.right).wf(),
                (*self.right).height() == (*old(self).right).height(),
                (*self.left).wf(),
                (*self.left).height() == (*old(self).left).height(),
                self.condition == old(self).condition,
                row_views(self.left_rows@) == l_target,
                row_views(self.right_rows@) == r_target,
            decreases (*self.right).remaining().len(),
        {
            let ghost bv = row_views(self.right_rows@);
            match (*self.right).next() {
                Some(row) => {
                    self.right_rows.push(row);
                    proof {
                        assert(row_views(self.right_rows@) =~= bv + seq![
                            self.right_rows@.last()@,
                        ]);
                        assert(row_views(self.right_rows@) + (*self.right).remaining()
                            =~= r_target);
                    }
                },
                None => {
                    proof {
                        assert(row_views(self.right_rows@) =~= r_target);
                    }
                    break;
                },
            }
        }
        self.left_index = 0;
        self.right_index = 0;
    }

    fn next(&mut self) -> (r: Option<Row>)
        decreases old(self).height(), 0int,
    {
        let ghost lv = row_views(old(self).left_rows@);
        let ghost rv = row_views(old(self).right_rows@);
        let ghost jl = old(self).condition.left as int;
        let ghost jr = old(self).condition.right as int;
        loop
            invariant
                self.left == old(self).left,
                self.right == old(self).right,
                self.left_rows == old(self).left_rows,
                self.right_rows == old(self).right_rows,
                self.condition == old(self).condition,
                lv == row_views(self.left_rows@),
                rv == row_views(self.right_rows@),
                jl == self.condition.left as int,
                jr == self.condition.right as int,
                self.left_index <= self.left_rows@.len(),
                self.right_index <= self.right_rows@.len(),
                (*self.left).wf(),
                (*self.right).wf(),
                old(self).remaining() == matches_from(
                    lv,
                    rv,
                    jl,
                    jr,
                    self.left_index as int,
                    self.right_index as int,
                ),
            decreases
                self.left_rows@.len() - self.left_index,
                self.right_rows@.len() - self.right_index,
        {
            if self.left_index >= self.left_rows.len() {
                proof {
                    assert(old(self).remaining() =~= Seq::<RowV>::empty());
                    assert(final(self).remaining() == old(self).remaining());
                }
                return None;
            }
            if self.right_index >= self.right_rows.len() {
                self.right_index = 0;
                self.left_index = self.left_index + 1;
                continue;
            }
            let li = self.left_index;
            let ri = self.right_index;
            if join_matches(&self.left_rows[li], &self.right_rows[ri], self.condition) {
                let combined = concat_rows(&self.left_rows[li], &self.right_rows[ri]);
                self.right_index = ri + 1;
                proof {
                    let m = matches_from(lv, rv, jl, jr, li as int, ri as int);
                    assert(m == seq![lv[li as int] + rv[ri as int]] + matches_from(
                        lv,
                        rv,
                        jl,
                        jr,
                        li as int,
                        ri + 1,
                    ));
                    assert(m[0] == combined@);
                    assert(m.drop_first() =~= matches_from(lv, rv, jl, jr, li as int, ri + 1));
                }
                return Some(combined);
            }
            self.right_index = ri + 1;
            proof {
                assert(matches_from(lv, rv, jl, jr, li as int, ri as int) =~= Seq::<
                    RowV,
                >::empty() + matches_from(lv, rv, jl, jr, li as int, ri + 1));
                assert(Seq::<RowV>::empty() + matches_from(lv, rv, jl, jr, li as int, ri + 1)
                    =~= matches_from(lv, rv, jl, jr, li as int, ri + 1));
            }
        }
    }

    fn close(&self)
        decreases self.height(), 0int,
    {
        (*self.left).close();
        (*self.right).close();
    }
}

/// A linear operator pipeline: one of the operator kinds, each exclusively
/// owning its upstream.
#[derive(Debug)]
pub enum Pipeline {
    Scan(Scan),
    Filter(Filter),
    Project(Project),
    Limit(Limit),
    Sort(Sort),
    Join(Join),
}

impl Operator for Pipeline {
    open spec fn wf(&self) -> bool
        decreases self,
    {
        match self {
            Pipeline::Scan(op) => op.wf(),
            Pipeline::Filter(op) => op.wf(),
            Pipeline::Project(op) => op.wf(),
            Pipeline::Limit(op) => op.wf(),
            Pipeline::Sort(op) => op.wf(),
            Pipeline::Join(op) => op.wf(),
        }
    }

    open spec fn height(&self) -> nat
        decreases self,
    {
        match self {
            Pipeline::Scan(op) => op.height(),
            Pipeline::Filter(op) => op.height(),
            Pipeline::Project(op) => op.height(),
            Pipeline::Limit(op) => op.height(),
            Pipeline::Sort(op) => op.height(),
            Pipeline::Join(op) => op.height(),
        }
    }

    open spec fn remaining(&self) -> Seq<RowV>
        decreases self,
    {
        match self {
            Pipeline::Scan(op) => op.remaining(),
            Pipeline::Filter(op) => op.remaining(),
            Pipeline::Project(op) => op.remaining(),
            Pipeline::Limit(op) => op.remaining(),
            Pipeline::Sort(op) => op.remaining(),
            Pipeline::Join(op) => op.remaining(),
        }
    }

    open spec fn after_open(&self) -> Seq<RowV>
        decreases self,
    {
        match self {
            Pipeline::Scan(op) => op.after_open(),
            Pipeline::Filter(op) => op.after_open(),
            Pipeline::Project(op) => op.after_open(),
            Pipeline::Limit(op) => op.after_open(),
            Pipeline::Sort(op) => op.after_open(),
            Pipeline::Join(op) => op.after_open(),
        }
    }

    fn open(&mut self)
        decreases old(self).height(), 1int,
    {
        match self {
            Pipeline::Scan(op) => op.open(),
            Pipeline::Filter(op) => op.open(),
            Pipeline::Project(op) => op.open(),
            Pipeline::Limit(op) => op.open(),
            Pipeline::Sort(op) => op.open(),
            Pipeline::Join(op) => op.open(),
        }
    }

    fn next(&mut self) -> (r: Option<Row>)
        decreases old(self).height(), 1int,
    {
        match self {
            Pipeline::Scan(op) => op.next(),
            Pipeline::Filter(op) => op.next(),
            Pipeline::Project(op) => op.next(),
            Pipeline::Limit(op) => op.next(),
            Pipeline::Sort(op) => op.next(),
            Pipeline::Join(op) => op.next(),
        }
    }

    fn close(&self)
        decreases self.height(), 1int,
    {
        match self {
            Pipeline::Scan(op) => op.close(),
            Pipeline::Filter(op) => op.close(),
            Pipeline::Project(op) => op.close(),
            Pipeline::Limit(op) => op.close(),
            Pipeline::Sort(op) => op.close(),
            Pipeline::Join(op) => op.close(),
        }
    }
}

} // verus!

verus! {

// ---------------------------------------------------------------------------
// Laws of the operators
// ---------------------------------------------------------------------------

/// Rows in non-decreasing key order.
pub open spec fn sorted_by_key(s: Seq<RowV>, k: int) -> bool {
    forall|i: int, j: int| 0 <= i <= j < s.len() ==> key_le(#[trigger] s[i], #[trigger] s[j], k)
}

/// The predicate "this row's key is `v`", used to state stability.
pub open spec fn key_is(k: int, v: Option<Seq<char>>) -> spec_fn(RowV) -> bool {
    |row: RowV| row_key(row, k) == v
}

/// The key order is total.
pub proof fn lemma_key_le_total(a: RowV, b: RowV, k: int)
    ensures
        key_le(a, b, k) || key_le(b, a, k),
{
    match (row_key(a, k), row_key(b, k)) {
        (Some(x), Some(y)) => {
            crate::text::lemma_chars_lt_total(x, y);
        },
        _ => {},
    }
}

/// The key order is transitive.
pub proof fn lemma_key_le_trans(a: RowV, b: RowV, c: RowV, k: int)
    requires
        key_le(a, b, k),
        key_le(b, c, k),
    ensures
        key_le(a, c, k),
{
    match (row_key(a, k), row_key(b, k), row_key(c, k)) {
        (Some(x), Some(y), Some(z)) => {
            if crate::text::chars_lt(z, x) {
                crate::text::lemma_chars_lt_total(y, x);
                if crate::text::chars_lt(x, y) {
                    crate::text::lemma_chars_lt_trans(z, x, y);
                }
            }
        },
        _ => {},
    }
}

/// Stable insertion: the result is one longer, holds the same rows plus the
/// new one, stays sorted, and among rows with the inserted row's key the new
/// one comes last.
proof fn lemma_insert_sorted_props(r: RowV, s: Seq<RowV>, k: int)
    requires
        sorted_by_key(s, k),
    ensures
        insert_sorted(r, s, k).len() == s.len() + 1,
        insert_sorted(r, s, k).to_multiset() == s.to_multiset().insert(r),
        sorted_by_key(insert_sorted(r, s, k), k),
        forall|i: int|
            0 <= i < insert_sorted(r, s, k).len() ==> (#[trigger] insert_sorted(r, s, k)[i] == r
                || s.contains(insert_sorted(r, s, k)[i])),
    decreases s.len(),
{
    broadcast use vstd::seq_lib::group_to_multiset_ensures;

    let res = insert_sorted(r, s, k);
    if s.len() == 0 {
        assert(res =~= Seq::<RowV>::empty().push(r));
        assert(res.to_multiset() =~= s.to_multiset().insert(r));
        lemma_key_le_total(r, r, k);
        assert(res[0] == r);
    } else if key_le(s[0], r, k) {
        let tail = s.drop_first();
        assert(sorted_by_key(tail, k)) by {
            assert forall|i: int, j: int| 0 <= i <= j < tail.len() implies key_le(
                #[trigger] tail[i],
                #[trigger] tail[j],
                k,
            ) by {
                assert(tail[i] == s[i + 1]);
                assert(tail[j] == s[j + 1]);
            }
        }
        lemma_insert_sorted_props(r, tail, k);
        let sub = insert_sorted(r, tail, k);
        assert(res =~= seq![s[0]] + sub);
        // multiset: cons both sides
        vstd::seq_lib::lemma_multiset_commutative(seq![s[0]], sub);
        vstd::seq_lib::lemma_multiset_commutative(seq![s[0]], tail);
        assert(seq![s[0]] + tail =~= s);
        assert(seq![s[0]].to_multiset() =~= Multiset::<RowV>::empty().insert(s[0]));
        assert(res.to_multiset() =~= s.to_multiset().insert(r));
        // sortedness: s[0] is below everything that follows
        assert forall|i: int, j: int| 0 <= i <= j < res.len() implies key_le(
            #[trigger] res[i],
            #[trigger] res[j],
            k,
        ) by {
            if i == 0 && j == 0 {
                assert(res[0] == s[0]);
                assert(key_le(s[0], s[0], k));
            } else if i == 0 && j > 0 {
                assert(res[0] == s[0]);
                let x = res[j];
                assert(x == sub[j - 1]);
                assert(sub[j - 1] == r || tail.contains(sub[j - 1]));
                if x == r {
                    assert(key_le(s[0], r, k));
                } else {
                    assert(tail.contains(x));
                    let w = choose|m: int| 0 <= m < tail.len() && tail[m] == x;
                    assert(tail[w] == s[w + 1]);
                    assert(key_le(s[0], s[w + 1], k));
                }
            } else {
                assert(res[i] == sub[i - 1]);
                assert(res[j] == sub[j - 1]);
            }
        }
        assert forall|i: int| 0 <= i < res.len() implies (#[trigger] res[i] == r || s.contains(
            res[i],
        )) by {
            if i == 0 {
                assert(s[0] == res[0]);
            } else {
                assert(res[i] == sub[i - 1]);
                if res[i] != r {
                    let w = choose|m: int| 0 <= m < tail.len() && tail[m] == res[i];
                    assert(s[w + 1] == res[i]);
                }
            }
        }
    } else {
        assert(res =~= seq![r] + s);
        vstd::seq_lib::lemma_multiset_commutative(seq![r], s);
        assert(seq![r].to_multiset() =~= Multiset::<RowV>::empty().insert(r));
        assert(res.to_multiset() =~= s.to_multiset().insert(r));
        lemma_key_le_total(s[0], r, k);
        assert forall|i: int, j: int| 0 <= i <= j < res.len() implies key_le(
            #[trigger] res[i],
            #[trigger] res[j],
            k,
        ) by {
            if i == 0 && j == 0 {
                assert(res[0] == r);
                lemma_key_le_total(r, r, k);
            } else if i == 0 && j > 0 {
                assert(res[0] == r);
                assert(res[j] == s[j - 1]);
                assert(key_le(s[0], s[j - 1], k));
                lemma_key_le_trans(r, s[0], s[j - 1], k);
            } else {
                assert(res[i] == s[i - 1]);
                assert(res[j] == s[j - 1]);
                assert(key_le(s[i - 1], s[j - 1], k));
            }
        }
    }
}

/// The stable sort returns a permutation of its input, in key order.
pub proof fn lemma_sort_rows_props(s: Seq<RowV>, k: int)
    ensures
        sort_rows(s, k).len() == s.len(),
        sort_rows(s, k).to_multiset() == s.to_multiset(),
        sorted_by_key(sort_rows(s, k), k),
    decreases s.len(),
{
    broadcast use vstd::seq_lib::group_to_multiset_ensures;

    if s.len() > 0 {
        lemma_sort_rows_props(s.drop_last(), k);
        lemma_insert_sorted_props(s.last(), sort_rows(s.drop_last(), k), k);
        assert(s =~= s.drop_last().push(s.last()));
        assert(s.drop_last().push(s.last()).to_multiset() =~= s.drop_last().to_multiset().insert(
            s.last(),
        ));
    }
}

/// Inserting a row leaves the subsequence of any key unchanged, except that
/// the inserted row's own key gains it at the end.
proof fn lemma_insert_sorted_filter(r: RowV, s: Seq<RowV>, k: int, v: Option<Seq<char>>)
    requires
        sorted_by_key(s, k),
    ensures
        insert_sorted(r, s, k).filter(key_is(k, v)) == if row_key(r, k) == v {
            s.filter(key_is(k, v)).push(r)
        } else {
            s.filter(key_is(k, v))
        },
    decreases s.len(),
{
    reveal(Seq::filter);
    let f = key_is(k, v);
    let res = insert_sorted(r, s, k);
    if s.len() == 0 {
        assert(res =~= Seq::<RowV>::empty().push(r));
        assert(res.drop_last() =~= Seq::<RowV>::empty());
        assert(s.filter(f) =~= Seq::<RowV>::empty());
        if row_key(r, k) == v {
            assert(f(r));
            assert(res.filter(f) =~= s.filter(f).push(r));
        } else {
            assert(!f(r));
            assert(res.filter(f) =~= s.filter(f));
        }
    } else if key_le(s[0], r, k) {
        let tail = s.drop_first();
        assert(sorted_by_key(tail, k)) by {
            assert forall|i: int, j: int| 0 <= i <= j < tail.len() implies key_le(
                #[trigger] tail[i],
                #[trigger] tail[j],
                k,
            ) by {
                assert(tail[i] == s[i + 1]);
                assert(tail[j] == s[j + 1]);
            }
        }
        lemma_insert_sorted_filter(r, tail, k, v);
        let sub = insert_sorted(r, tail, k);
        assert(res =~= seq![s[0]] + sub);
        Seq::filter_distributes_over_add(seq![s[0]], sub, f);
        assert(s =~= seq![s[0]] + tail);
        Seq::filter_distributes_over_add(seq![s[0]], tail, f);
        if row_key(r, k) == v {
            assert(seq![s[0]].filter(f) + tail.filter(f).push(r) =~= (seq![s[0]].filter(f)
                + tail.filter(f)).push(r));
        }
    } else {
        assert(res =~= seq![r] + s);
        Seq::filter_distributes_over_add(seq![r], s, f);
        let single = seq![r];
        assert(single.drop_last() =~= Seq::<RowV>::empty());
        if row_key(r, k) == v {
            // everything in s is at or above s[0], which is strictly above
            // r's key, so s keeps no row of this key and r would come last
            // among them anyway
            assert(f(r));
            assert(single.filter(f) =~= seq![r]);
            assert forall|i: int| 0 <= i < s.len() implies !(#[trigger] f(s[i])) by {
                if f(s[i]) {
                    // s[i] and r carry the same key, so s[i] orders at or
                    // below r, and s[0] at or below s[i]
                    assert(key_le(s[i], r, k)) by {
                        match (row_key(s[i], k), row_key(r, k)) {
                            (Some(x), Some(y)) => {
                                crate::text::lemma_chars_lt_total(y, x);
                            },
                            _ => {},
                        }
                    }
                    assert(key_le(s[0], s[i], k));
                    lemma_key_le_trans(s[0], s[i], r, k);
                }
            }
            lemma_filter_all_false(s, f);
            assert(seq![r] + s.filter(f) =~= s.filter(f).push(r));
        } else {
            assert(!f(r));
            assert(Seq::<RowV>::empty().filter(f) =~= Seq::<RowV>::empty());
            assert(single.drop_last().filter(f) =~= Seq::<RowV>::empty());
            assert(single.filter(f) =~= Seq::<RowV>::empty());
            assert(Seq::<RowV>::empty() + s.filter(f) =~= s.filter(f));
        }
    }
}

/// A filter that rejects every element returns the empty sequence.
proof fn lemma_filter_all_false(s: Seq<RowV>, f: spec_fn(RowV) -> bool)
    requires
        forall|i: int| 0 <= i < s.len() ==> !(#[trigger] f(s[i])),
    ensures
        s.filter(f) == Seq::<RowV>::empty(),
    decreases s.len(),
{
    reveal(Seq::filter);
    if s.len() == 0 {
        assert(s.filter(f) =~= Seq::<RowV>::empty());
    } else {
        lemma_filter_all_false(s.drop_last(), f);
        assert(!f(s.last()));
    }
}

/// Law: the stable sort keeps rows of equal key in their original order --
/// for every key, the subsequence of rows carrying it is unchanged.
pub proof fn lemma_sort_rows_stable(s: Seq<RowV>, k: int, v: Option<Seq<char>>)
    ensures
        sort_rows(s, k).filter(key_is(k, v)) == s.filter(key_is(k, v)),
    decreases s.len(),
{
    reveal(Seq::filter);
    let f = key_is(k, v);
    if s.len() == 0 {
        assert(sort_rows(s, k) =~= Seq::<RowV>::empty());
    } else {
        let front = s.drop_last();
        lemma_sort_rows_stable(front, k, v);
        lemma_sort_rows_props(front, k);
        lemma_insert_sorted_filter(s.last(), sort_rows(front, k), k, v);
        if f(s.last()) {
        } else {
        }
    }
}

/// Law: for any row set and limit `n`, a Limit operator's stream holds
/// exactly `min(n, upstream length)` rows (see `Limit::new`).
pub proof fn lemma_limit_len(s: Seq<RowV>, n: int)
    requires
        0 <= n,
    ensures
        take_at_most(s, n).len() == if n <= s.len() {
            n
        } else {
            s.len() as int
        },
{
}

/// Law: Sort followed by Limit yields exactly the `n` smallest rows by the
/// key order, order-stable for ties: the output is sorted, every row kept
/// orders at or below every row cut off, the sorted stream is a permutation
/// of the input, and rows of equal key keep their relative order (see
/// `Sort::new` and `Limit::new`).
pub proof fn lemma_sort_then_limit(s: Seq<RowV>, k: int, n: int)
    requires
        0 <= n,
    ensures
        ({
            let sorted = sort_rows(s, k);
            let out = take_at_most(sorted, n);
            &&& out.len() == if n <= s.len() {
                n
            } else {
                s.len() as int
            }
            &&& sorted.to_multiset() == s.to_multiset()
            &&& sorted_by_key(out, k)
            &&& forall|i: int, j: int|
                0 <= i < out.len() && out.len() <= j < sorted.len() ==> key_le(
                    #[trigger] out[i],
                    #[trigger] sorted[j],
                    k,
                )
            &&& forall|v: Option<Seq<char>>| #[trigger]
                sorted.filter(key_is(k, v)) == s.filter(key_is(k, v))
        }),
{
    let sorted = sort_rows(s, k);
    let out = take_at_most(sorted, n);
    lemma_sort_rows_props(s, k);
    assert(sorted_by_key(out, k)) by {
        assert forall|i: int, j: int| 0 <= i <= j < out.len() implies key_le(
            #[trigger] out[i],
            #[trigger] out[j],
            k,
        ) by {
            assert(out[i] == sorted[i]);
            assert(out[j] == sorted[j]);
        }
    }
    assert forall|i: int, j: int| 0 <= i < out.len() && out.len() <= j < sorted.len() implies
        key_le(#[trigger] out[i], #[trigger] sorted[j], k) by {
        assert(out[i] == sorted[i]);
    }
    assert forall|v: Option<Seq<char>>| #[trigger] sorted.filter(key_is(k, v)) == s.filter(
        key_is(k, v),
    ) by {
        lemma_sort_rows_stable(s, k, v);
    }
}

/// The number of rows on the right that one left row joins with.
pub open spec fn row_match_count(a: RowV, r: Seq<RowV>, jl: int, jr: int) -> int
    decreases r.len(),
{
    if r.len() == 0 {
        0
    } else {
        (if join_cond(a, r[0], jl, jr) {
            1int
        } else {
            0int
        }) + row_match_count(a, r.drop_first(), jl, jr)
    }
}

/// The number of pairs of a left and a right row that the join condition
/// accepts.
pub open spec fn pair_count(l: Seq<RowV>, r: Seq<RowV>, jl: int, jr: int) -> int
    decreases l.len(),
{
    if l.len() == 0 {
        0
    } else {
        row_match_count(l[0], r, jl, jr) + pair_count(l.drop_first(), r, jl, jr)
    }
}

proof fn lemma_matches_from_count(l: Seq<RowV>, r: Seq<RowV>, jl: int, jr: int, li: int, ri: int)
    requires
        0 <= li <= l.len(),
        0 <= ri <= r.len(),
    ensures
        matches_from(l, r, jl, jr, li, ri).len() == if li < l.len() {
            row_match_count(l[li], r.skip(ri), jl, jr) + pair_count(l.skip(li + 1), r, jl, jr)
        } else {
            0
        },
    decreases l.len() - li, r.len() - ri,
{
    if li >= l.len() {
    } else if ri == r.len() {
        lemma_matches_from_count(l, r, jl, jr, li + 1, 0);
        assert(r.skip(ri).len() == 0);
        assert(r.skip(0) =~= r);
        let lt = l.skip(li + 1);
        if li + 1 < l.len() {
            assert(lt[0] == l[li + 1]);
            assert(lt.drop_first() =~= l.skip(li + 2));
        } else {
            assert(lt.len() == 0);
        }
    } else {
        lemma_matches_from_count(l, r, jl, jr, li, ri + 1);
        assert(r.skip(ri)[0] == r[ri]);
        assert(r.skip(ri).drop_first() =~= r.skip(ri + 1));
    }
}

/// Law: the join's stream holds one concatenated row for each pair the
/// condition accepts -- its length is the matching-pair count (see
/// `Join::new`).
pub proof fn lemma_join_count(l: Seq<RowV>, r: Seq<RowV>, jl: int, jr: int)
    ensures
        matches_from(l, r, jl, jr, 0, 0).len() == pair_count(l, r, jl, jr),
{
    lemma_matches_from_count(l, r, jl, jr, 0, 0);
    if l.len() > 0 {
        assert(r.skip(0) =~= r);
        assert(l.skip(1) =~= l.drop_first());
    }
}

} // verus!
