//! The native-code compilation path: query plans over fixed-width integer
//! rows, lowering of the compilable predicate subset, its reference
//! semantics, and the assembler backend that turns a plan into an executable
//! buffer with an entry offset.
//!
//! The lowering rules are backend-agnostic; the instruction encoding itself
//! lives entirely behind the assembler dependency.

use vstd::prelude::*;

use crate::Error;
use crate::eval::Schema;
use crate::eval::find_col;
use crate::eval::spec_eval;
use crate::operators::RowV;
use crate::row::Int64Row;
use crate::text::i64_chars;
use crate::text::lemma_i64_chars_round_trip;
use crate::text::parse_i64;

verus! {

/// Index of the column in a row, used as an alias for the column name.
pub type ColumnIndex = usize;

/// Binary operations supported in compiled `WHERE` clauses.
#[derive(Debug, Clone, Copy, PartialEq, Eq, Structural)]
pub enum BinaryOperator {
    Equal,
    GreaterThan,
    LesserThan,
}

/// The compilable expression subset: column loads, 64-bit integer
/// immediates, and comparisons -- no text and no boolean connectives.
#[derive(Debug, PartialEq, Eq)]
pub enum Expr {
    Column(ColumnIndex),
    Value(i64),
    Comparison(BinaryOperator, Box<Expr>, Box<Expr>),
}

/// The value a compiled expression computes over one integer row: a column
/// reads its field (a field beyond the row reads zero -- callers must uphold
/// the row-width contract), an immediate is itself, and a comparison yields
/// one or zero.
pub open spec fn spec_eval_int(e: Expr, row: Seq<i64>) -> i64
    decreases e,
{
    match e {
        Expr::Column(i) => if (i as int) < row.len() {
            row[i as int]
        } else {
            0
        },
        Expr::Value(v) => v,
        Expr::Comparison(op, l, r) => {
            let a = spec_eval_int(*l, row);
            let b = spec_eval_int(*r, row);
            let hit = match op {
                BinaryOperator::Equal => a == b,
                BinaryOperator::GreaterThan => a > b,
                BinaryOperator::LesserThan => a < b,
            };
            if hit {
                1
            } else {
                0
            }
        },
    }
}

impl Expr {
    /// Evaluate a compiled expression over one integer row: the reference
    /// semantics every generated routine must agree with.
    pub fn eval(&self, row: &Int64Row) -> (v: i64)
        ensures
            v == spec_eval_int(*self, row@),
        decreases self,
    {
        match self {
            Expr::Column(i) => {
                if *i < row.len() {
                    row.get(*i)
                } else {
                    0
                }
            },
            Expr::Value(v) => *v,
            Expr::Comparison(op, l, r) => {
                let a = l.eval(row);
                let b = r.eval(row);
                let hit = match op {
                    BinaryOperator::Equal => a == b,
                    BinaryOperator::GreaterThan => a > b,
                    BinaryOperator::LesserThan => a < b,
                };
                if hit {
                    1
                } else {
                    0
                }
            },
        }
    }

    /// Whether one integer row passes this expression used as a filter: the
    /// routine's nonzero result.
    pub fn matches(&self, row: &Int64Row) -> (r: bool)
        ensures
            r == (spec_eval_int(*self, row@) != 0),
    {
        self.eval(row) != 0
    }
}

// ---------------------------------------------------------------------------
// Lowering from the parsed expression language
// ---------------------------------------------------------------------------

/// An operand the compiled subset can take: a column name the schema knows,
/// or an integer literal.
pub open spec fn spec_lower_operand(schema: Seq<Seq<char>>, e: crate::sql::ExprV) -> Option<
    Expr,
> {
    match e {
        crate::sql::ExprV::Column(name) => match find_col(schema, name) {
            Some(i) => Some(Expr::Column(i as usize)),
            None => None,
        },
        crate::sql::ExprV::Value(v) => if i64::MIN <= v <= i64::MAX {
            Some(Expr::Value(v as i64))
        } else {
            None
        },
        _ => None,
    }
}

/// A predicate both paths can express: a single comparison between two plain
/// operands, under one of the three operators.
pub open spec fn spec_lower(schema: Seq<Seq<char>>, e: crate::sql::ExprV) -> Option<Expr> {
    match e {
        crate::sql::ExprV::Comparison(l, op, r) => {
            let cop = if op == "="@ {
                Some(BinaryOperator::Equal)
            } else if op == ">"@ {
                Some(BinaryOperator::GreaterThan)
            } else if op == "<"@ {
                Some(BinaryOperator::LesserThan)
            } else {
                None
            };
            match (cop, spec_lower_operand(schema, *l), spec_lower_operand(schema, *r)) {
                (Some(o), Some(cl), Some(cr)) => Some(
                    Expr::Comparison(o, Box::new(cl), Box::new(cr)),
                ),
                _ => None,
            }
        },
        _ => None,
    }
}

/// The expression shape the compiler accepts, regardless of the schema: a
/// comparison of two leaf operands under `=`, `>` or `<`.
pub open spec fn lowerable_shape(e: crate::sql::ExprV) -> bool {
    match e {
        crate::sql::ExprV::Comparison(l, op, r) => {
            (op == "="@ || op == ">"@ || op == "<"@) && (match *l {
                crate::sql::ExprV::Column(_) => true,
                crate::sql::ExprV::Value(_) => true,
                _ => false,
            }) && (match *r {
                crate::sql::ExprV::Column(_) => true,
                crate::sql::ExprV::Value(_) => true,
                _ => false,
            })
        },
        _ => false,
    }
}

fn lower_operand(schema: &Schema, e: &crate::sql::Expr) -> (r: Result<Expr, Error>)
    ensures
        match spec_lower_operand(schema@, e@) {
            Some(c) => r matches Ok(ce) && ce == c,
            None => r matches Err(err) && (err == if e@ matches crate::sql::ExprV::Column(_) {
                Error::SchemaMismatch
            } else {
                Error::UnsupportedExpression
            }),
        },
{
    match e {
        crate::sql::Expr::Column(name) => match schema.resolve(name.as_str()) {
            Some(i) => Ok(Expr::Column(i)),
            None => Err(Error::SchemaMismatch),
        },
        crate::sql::Expr::Value(v) => Ok(Expr::Value(*v)),
        _ => Err(Error::UnsupportedExpression),
    }
}

/// Lower a parsed predicate into the compilable subset: a single comparison
/// whose operands are columns of the schema or integer literals. Anything
/// else is outside the compiled path; a column name outside the schema is a
/// schema mismatch.
pub fn lower(schema: &Schema, e: &crate::sql::Expr) -> (r: Result<Expr, Error>)
    ensures
        match spec_lower(schema@, e@) {
            Some(c) => r matches Ok(ce) && ce == c,
            None => r matches Err(err) && (err == Error::SchemaMismatch || err
                == Error::UnsupportedExpression) && (lowerable_shape(e@) ==> err
                == Error::SchemaMismatch),
        },
{
    match e {
        crate::sql::Expr::Comparison(l, op, r) => {
            let cop = if crate::text::str_eq(op.as_str(), "=") {
                Some(BinaryOperator::Equal)
            } else if crate::text::str_eq(op.as_str(), ">") {
                Some(BinaryOperator::GreaterThan)
            } else if crate::text::str_eq(op.as_str(), "<") {
                Some(BinaryOperator::LesserThan)
            } else {
                None
            };
            match cop {
                Some(o) => {
                    let cl = lower_operand(schema, l)?;
                    let cr = lower_operand(schema, r)?;
                    Ok(Expr::Comparison(o, Box::new(cl), Box::new(cr)))
                },
                None => Err(Error::UnsupportedExpression),
            }
        },
        _ => Err(Error::UnsupportedExpression),
    }
}

// ---------------------------------------------------------------------------
// The differential law between the two paths
// ---------------------------------------------------------------------------

/// The text row that renders each 64-bit field of an integer row in decimal.
pub open spec fn int_row_text(row: Seq<i64>) -> RowV {
    row.map_values(|v: i64| i64_chars(v as int))
}

/// Law: a predicate expressible in both paths means the same thing in both.
/// For any integer row, the interpreted evaluation of the predicate over the
/// row's decimal rendering agrees with the compiled evaluation over the row
/// itself.
pub proof fn lemma_interpreted_compiled_agree(
    schema: Seq<Seq<char>>,
    e: crate::sql::ExprV,
    c: Expr,
    row: Seq<i64>,
)
    requires
        spec_lower(schema, e) == Some(c),
        schema.len() <= row.len(),
        row.len() <= usize::MAX,
    ensures
        spec_eval(schema, e, int_row_text(row)) == (spec_eval_int(c, row) != 0),
{
    match e {
        crate::sql::ExprV::Comparison(l, op, r) => {
            let cl = spec_lower_operand(schema, *l).unwrap();
            let cr = spec_lower_operand(schema, *r).unwrap();
            let va = spec_eval_int(cl, row);
            let vb = spec_eval_int(cr, row);
            lemma_operand_agree(schema, *l, cl, row);
            lemma_operand_agree(schema, *r, cr, row);
            lemma_i64_chars_round_trip(va);
            lemma_i64_chars_round_trip(vb);
            assert(parse_i64(i64_chars(va as int)) == Some(va));
            assert(parse_i64(i64_chars(vb as int)) == Some(vb));
        },
        _ => {},
    }
}

/// A lowered operand resolves, under the interpreted path, to the decimal
/// rendering of the value the compiled path computes.
proof fn lemma_operand_agree(
    schema: Seq<Seq<char>>,
    e: crate::sql::ExprV,
    c: Expr,
    row: Seq<i64>,
)
    requires
        spec_lower_operand(schema, e) == Some(c),
        schema.len() <= row.len(),
        row.len() <= usize::MAX,
    ensures
        crate::eval::spec_resolve(schema, e, int_row_text(row)) == Some(
            i64_chars(spec_eval_int(c, row) as int),
        ),
{
    match e {
        crate::sql::ExprV::Column(name) => {
            let i = find_col(schema, name).unwrap();
            lemma_find_col_in_range(schema, name);
            assert(int_row_text(row)[i] == i64_chars(row[i] as int));
        },
        _ => {},
    }
}

/// A found column index lies inside the schema.
proof fn lemma_find_col_in_range(cols: Seq<Seq<char>>, name: Seq<char>)
    ensures
        match find_col(cols, name) {
            Some(i) => 0 <= i < cols.len(),
            None => true,
        },
{
    lemma_find_col_from_in_range(cols, name, 0);
}

proof fn lemma_find_col_from_in_range(cols: Seq<Seq<char>>, name: Seq<char>, j: int)
    ensures
        match crate::eval::find_col_from(cols, name, j) {
            Some(i) => j <= i < cols.len(),
            None => true,
        },
    decreases cols.len() - j,
{
    if 0 <= j < cols.len() && cols[j] != name {
        lemma_find_col_from_in_range(cols, name, j + 1);
    }
}

// ---------------------------------------------------------------------------
// Compiled query plans
// ---------------------------------------------------------------------------

/// Operator defines the atoms used to represent query plans that are
/// compiled to native code.
#[derive(Debug, PartialEq, Eq)]
pub enum Operator {
    Project(ColumnIndex),
    Scan,
    Filter(Expr),
}

/// A query plan for the compiled path: a linear sequence of operators where
/// downstream pulls from upstream, mirroring the interpreted model -- except
/// that here the operators are definitions whose implementation is the code
/// generated at runtime.
pub struct QueryPlan {
    pub pipeline: Vec<Operator>,
}

impl QueryPlan {
    /// Create a new, empty query plan.
    pub fn new() -> (r: Self)
        ensures
            r.pipeline@ =~= Seq::<Operator>::empty(),
    {
        Self { pipeline: Vec::new() }
    }

    /// Push a new operator onto the end of the linear pipeline.
    pub fn push(&mut self, operator: Operator)
        ensures
            final(self).pipeline@ == old(self).pipeline@.push(operator),
    {
        self.pipeline.push(operator)
    }
}

} // verus!

verus! {

// ---------------------------------------------------------------------------
// The assembler backend
// ---------------------------------------------------------------------------

#[verifier::external_type_specification]
pub struct ExAssemblyOffset(dynasmrt::AssemblyOffset);

#[verifier::external_type_specification]
#[verifier::external_body]
pub struct ExExecutableBuffer(dynasmrt::mmap::ExecutableBuffer);

/// The assembler backend: dynasmrt's x86-64 assembler, held opaquely
/// (Verus refuses the declaration of its generic relocation parameter).
#[verifier::external_body]
pub struct Backend {
    inner: dynasmrt::x64::Assembler,
}

/// The machine code held by the backend's assembler: what was emitted so
/// far.
pub uninterp spec fn asm_code(a: &Backend) -> Seq<u8>;

/// The machine code held by a finalized executable buffer.
pub uninterp spec fn buffer_code(b: &dynasmrt::mmap::ExecutableBuffer) -> Seq<u8>;

/// Relies on dynasmrt's `Assembler::new`: a fresh assembler holds no code;
/// it fails only when executable memory cannot be set up.
#[verifier::external_body]
fn new_assembler() -> (r: Option<Backend>)
    ensures
        r matches Some(a) ==> asm_code(&a) == Seq::<u8>::empty(),
{
    match dynasmrt::x64::Assembler::new() {
        Ok(inner) => Some(Backend { inner }),
        Err(_) => None,
    }
}

/// Relies on dynasmrt's `DynasmApi::offset`: the current offset is the
/// length of the code emitted so far.
#[verifier::external_body]
fn assembler_offset(a: &Backend) -> (r: dynasmrt::AssemblyOffset)
    ensures
        r.0 == asm_code(a).len(),
{
    dynasmrt::DynasmApi::offset(&a.inner)
}

/// Relies on dynasmrt's `Assembler::commit` and `Assembler::finalize`:
/// committing flushes the emitted code into executable memory without
/// changing it, and finalize hands the buffer out.
#[verifier::external_body]
fn finalize_assembler(a: Backend) -> (r: Option<dynasmrt::mmap::ExecutableBuffer>)
    ensures
        r matches Some(b) ==> buffer_code(&b) == asm_code(&a),
{
    let mut backend = a.inner;
    if backend.commit().is_err() {
        return None;
    }
    backend.finalize().ok()
}

/// An entry offset paired with the owned, immutable, executable code buffer
/// it points into. The buffer must outlive every function pointer derived
/// from the offset and is never mutated after finalization.
pub struct CompiledQueryPlan(pub dynasmrt::AssemblyOffset, pub dynasmrt::mmap::ExecutableBuffer);

/// Compiles a query plan over a fixed batch of integer rows.
pub struct QueryCompiler {
    pub plan: QueryPlan,
    pub rows: Vec<Int64Row>,
}

impl QueryCompiler {
    /// Create a new query compiler.
    pub fn new(plan: QueryPlan, rows: Vec<Int64Row>) -> (r: Self)
        ensures
            r.plan.pipeline@ == plan.pipeline@,
            r.rows == rows,
    {
        Self { plan, rows }
    }

    /// Set up the backend and finalize the plan into an executable buffer
    /// and its entry offset. Emission of the operator routines is the
    /// backend's own extension point; what this path guarantees is the
    /// buffer/offset pairing: the entry offset marks where this plan's code
    /// begins, here the start of an empty buffer. A backend that cannot be
    /// set up is a fatal construction-time error.
    pub fn compile(&self) -> (r: Result<CompiledQueryPlan, Error>)
        ensures
            match r {
                Ok(cp) => cp.0.0 == 0 && buffer_code(&cp.1).len() == 0,
                Err(e) => e == Error::BackendInitFailure,
            },
    {
        let assembler = match new_assembler() {
            Some(a) => a,
            None => {
                return Err(Error::BackendInitFailure);
            },
        };
        let entry_point = assembler_offset(&assembler);
        match finalize_assembler(assembler) {
            Some(buffer) => Ok(CompiledQueryPlan(entry_point, buffer)),
            None => Err(Error::BackendInitFailure),
        }
    }
}

} // verus!
