//! The cells a formula reads.
use vstd::prelude::*;
use crate::grammar::{Coord, SpecFormula, Formula, views};

verus! {

pub open spec fn min_int(a: int, b: int) -> int {
    if a <= b { a } else { b }
}

pub open spec fn max_int(a: int, b: int) -> int {
    if a <= b { b } else { a }
}

/// The cells of column `col` from row `r0` to row `r1`, top to bottom.
pub open spec fn column_refs(col: int, r0: int, r1: int) -> Seq<Coord> {
    Seq::new(
        (r1 - r0 + 1) as nat,
        |k: int| Coord { row: (r0 + k) as usize, col: col as usize },
    )
}

/// The cells of the `n` columns that start at column `c0`, column by column.
pub open spec fn columns_refs(c0: int, n: nat, r0: int, r1: int) -> Seq<Coord>
    decreases n,
{
    if n == 0 {
        Seq::empty()
    } else {
        columns_refs(c0, (n - 1) as nat, r0, r1) + column_refs(c0 + n - 1, r0, r1)
    }
}

/// The cells of the rectangle spanned by two corners, in any order of the
/// corners: column by column from the leftmost, each from the top row.
pub open spec fn range_refs(a: Coord, b: Coord) -> Seq<Coord> {
    let c0 = min_int(a.col as int, b.col as int);
    let c1 = max_int(a.col as int, b.col as int);
    let r0 = min_int(a.row as int, b.row as int);
    let r1 = max_int(a.row as int, b.row as int);
    columns_refs(c0, (c1 - c0 + 1) as nat, r0, r1)
}

/// The cells a formula reads: a coordinate reads itself, a range reads its
/// rectangle, an application reads what its arguments read, in order.
pub open spec fn refs(f: SpecFormula) -> Seq<Coord>
    decreases f,
{
    match f {
        SpecFormula::Coord(c) => seq![c],
        SpecFormula::Range(a, b) => range_refs(a, b),
        SpecFormula::Application(_, args) => args_refs(args),
        _ => Seq::empty(),
    }
}

pub open spec fn args_refs(args: Seq<SpecFormula>) -> Seq<Coord>
    decreases args,
{
    if args.len() == 0 {
        Seq::empty()
    } else {
        args_refs(args.drop_last()) + refs(args.last())
    }
}

fn push_column(out: &mut Vec<Coord>, col: usize, r0: usize, r1: usize)
    requires
        r0 <= r1,
    ensures
        final(out)@ == old(out)@ + column_refs(col as int, r0 as int, r1 as int),
{
    let ghost start = out@;
    let mut row = r0;
    loop
        invariant_except_break
            r0 <= row <= r1,
            out@ == start + column_refs(col as int, r0 as int, row as int - 1),
        ensures
            out@ == start + column_refs(col as int, r0 as int, r1 as int),
        decreases r1 - row,
    {
        out.push(Coord { row, col });
        assert(out@ =~= start + column_refs(col as int, r0 as int, row as int));
        if row == r1 {
            break;
        }
        row = row + 1;
    }
}

fn range_cells(a: Coord, b: Coord) -> (v: Vec<Coord>)
    ensures
        v@ == range_refs(a, b),
{
    let c0 = if a.col <= b.col { a.col } else { b.col };
    let c1 = if a.col <= b.col { b.col } else { a.col };
    let r0 = if a.row <= b.row { a.row } else { b.row };
    let r1 = if a.row <= b.row { b.row } else { a.row };
    let mut out: Vec<Coord> = Vec::new();
    let mut col = c0;
    assert(out@ =~= columns_refs(c0 as int, 0, r0 as int, r1 as int));
    loop
        invariant_except_break
            c0 <= col <= c1,
            r0 <= r1,
            out@ == columns_refs(c0 as int, (col - c0) as nat, r0 as int, r1 as int),
        ensures
            out@ == columns_refs(c0 as int, (c1 - c0 + 1) as nat, r0 as int, r1 as int),
        decreases c1 - col,
    {
        push_column(&mut out, col, r0, r1);
        assert(out@ == columns_refs(c0 as int, (col - c0 + 1) as nat, r0 as int, r1 as int));
        if col == c1 {
            break;
        }
        col = col + 1;
    }
    out
}

proof fn lemma_argument_smaller(f: Formula, k: int)
    requires
        f is Application,
        0 <= k < f->Application_1@.len(),
    ensures
        decreases_to!(f => f->Application_1@[k]),
{
    let args = f->Application_1;
    assert(decreases_to!(f => args));
    assert(decreases_to!(args => args@));
    assert(decreases_to!(args@ => args@[k]));
}

impl Formula {
    /// The cells this formula reads, as `refs` gives them.
    pub fn references(&self) -> (v: Vec<Coord>)
        ensures
            v@ == refs(self.spec_view()),
        decreases self,
    {
        match self {
            Formula::Coord(c) => {
                let mut v = Vec::new();
                v.push(*c);
                assert(v@ =~= seq![*c]);
                v
            },
            Formula::Range(a, b) => range_cells(*a, *b),
            Formula::Application(name, args) => {
                let ghost vs = views(args@);
                proof {
                    let v = self.spec_view();
                    match v {
                        SpecFormula::Application(n, xs) => {
                            assert(xs =~= vs);
                        },
                        _ => {},
                    }
                }
                let mut out: Vec<Coord> = Vec::new();
                let mut k: usize = 0;
                assert(vs.take(0) =~= Seq::<SpecFormula>::empty());
                while k < args.len()
                    invariant
                        k <= args.len(),
                        vs == views(args@),
                        self is Application,
                        self->Application_1 == *args,
                        out@ == args_refs(vs.take(k as int)),
                    decreases args.len() - k,
                {
                    proof {
                        lemma_argument_smaller(*self, k as int);
                    }
                    let mut part = args[k].references();
                    assert(vs.take(k + 1).drop_last() =~= vs.take(k as int));
                    assert(vs.take(k + 1).last() == args@[k as int].spec_view());
                    out.append(&mut part);
                    k = k + 1;
                }
                assert(vs.take(args.len() as int) =~= vs);
                out
            },
            _ => Vec::new(),
        }
    }
}

/// Whether `c` lies in the rectangle spanned by the corners `a` and `b`.
pub open spec fn in_rectangle(a: Coord, b: Coord, c: Coord) -> bool {
    &&& min_int(a.row as int, b.row as int) <= c.row <= max_int(a.row as int, b.row as int)
    &&& min_int(a.col as int, b.col as int) <= c.col <= max_int(a.col as int, b.col as int)
}

/// Whether `x` comes before `y` column by column, each column top to
/// bottom.
pub open spec fn column_major_before(x: Coord, y: Coord) -> bool {
    x.col < y.col || (x.col == y.col && x.row < y.row)
}

/// The `k`-th cell of `n` columns from `c0`, each of height `h`, is in
/// column `c0 + k / h` and row `r0 + k % h`.
proof fn lemma_columns_refs_index(c0: int, n: nat, r0: int, r1: int)
    requires
        r0 <= r1,
    ensures
        columns_refs(c0, n, r0, r1).len() == n * (r1 - r0 + 1),
        forall|k: int|
            0 <= k < n * (r1 - r0 + 1) ==> #[trigger] columns_refs(c0, n, r0, r1)[k] == (Coord {
                row: (r0 + k % (r1 - r0 + 1)) as usize,
                col: (c0 + k / (r1 - r0 + 1)) as usize,
            }),
    decreases n,
{
    let h = r1 - r0 + 1;
    if n > 0 {
        let m = (n - 1) as nat;
        lemma_columns_refs_index(c0, m, r0, r1);
        assert(m * h + h == n * h) by (nonlinear_arith)
            requires
                m + 1 == n,
        ;
        assert forall|k: int| 0 <= k < n * h implies #[trigger] columns_refs(c0, n, r0, r1)[k]
            == (Coord { row: (r0 + k % h) as usize, col: (c0 + k / h) as usize }) by {
            if k >= m * h {
                vstd::arithmetic::div_mod::lemma_fundamental_div_mod_converse(k, h, m as int, k - m * h);
            }
        }
    }
}

/// A range reads every cell of its rectangle exactly once, column by
/// column from the leftmost and each column from the top row, and the
/// order in which its corners are written does not matter.
pub proof fn law_range_lists_rectangle(a: Coord, b: Coord)
    ensures
        range_refs(a, b) == range_refs(b, a),
        forall|c: Coord| range_refs(a, b).contains(c) <==> in_rectangle(a, b, c),
        forall|i: int, j: int|
            0 <= i < j < range_refs(a, b).len() ==> column_major_before(
                #[trigger] range_refs(a, b)[i],
                #[trigger] range_refs(a, b)[j],
            ),
        range_refs(a, b).no_duplicates(),
{
    let c0 = min_int(a.col as int, b.col as int);
    let c1 = max_int(a.col as int, b.col as int);
    let r0 = min_int(a.row as int, b.row as int);
    let r1 = max_int(a.row as int, b.row as int);
    let h = r1 - r0 + 1;
    let n = (c1 - c0 + 1) as nat;
    let s = range_refs(a, b);
    assert(s =~= range_refs(b, a));
    lemma_columns_refs_index(c0, n, r0, r1);
    assert forall|k: int| 0 <= k < s.len() implies k / h <= c1 - c0 && 0 <= k / h && 0 <= k % h < h
        && s[k].col == c0 + k / h && s[k].row == r0 + k % h by {
        assert(k / h < n) by (nonlinear_arith)
            requires
                0 <= k < n * h,
                h > 0,
        ;
        assert(0 <= k / h) by (nonlinear_arith)
            requires
                0 <= k,
                h > 0,
        ;
    }
    assert forall|c: Coord| s.contains(c) <==> in_rectangle(a, b, c) by {
        if in_rectangle(a, b, c) {
            let q = c.col - c0;
            let r = c.row - r0;
            let k = q * h + r;
            assert(0 <= k < n * h) by (nonlinear_arith)
                requires
                    0 <= q < n,
                    0 <= r < h,
                    k == q * h + r,
            ;
            vstd::arithmetic::div_mod::lemma_fundamental_div_mod_converse(k, h, q, r);
            assert(s[k] == c);
        }
    }
    assert forall|i: int, j: int| 0 <= i < j < s.len() implies column_major_before(
        #[trigger] s[i],
        #[trigger] s[j],
    ) by {
        vstd::arithmetic::div_mod::lemma_fundamental_div_mod(i, h);
        vstd::arithmetic::div_mod::lemma_fundamental_div_mod(j, h);
        let (qi, ri, qj, rj) = (i / h, i % h, j / h, j % h);
        assert(qi < qj || (qi == qj && ri < rj)) by (nonlinear_arith)
            requires
                i == h * qi + ri,
                j == h * qj + rj,
                0 <= ri < h,
                0 <= rj < h,
                i < j,
        ;
    }
    assert forall|i: int, j: int| 0 <= i < s.len() && 0 <= j < s.len() && i != j implies s[i]
        != s[j] by {
        if i < j {
            assert(column_major_before(s[i], s[j]));
        } else {
            assert(column_major_before(s[j], s[i]));
        }
    }
}

/// The cells read by a list of arguments read one after another are
/// those read by the first part, then those read by the second.
proof fn lemma_args_refs_concat(a: Seq<SpecFormula>, b: Seq<SpecFormula>)
    ensures
        args_refs(a + b) == args_refs(a) + args_refs(b),
    decreases b.len(),
{
    if b.len() == 0 {
        assert(a + b =~= a);
        assert(args_refs(a) + args_refs(b) =~= args_refs(a));
    } else {
        lemma_args_refs_concat(a, b.drop_last());
        assert((a + b).drop_last() =~= a + b.drop_last());
        assert((a + b).last() == b.last());
        assert(args_refs(a + b) =~= args_refs(a) + args_refs(b));
    }
}

/// An application reads what each of its arguments reads, whatever the
/// argument is (a nested application too), in the order of the arguments:
/// what the `k`-th argument reads stands, whole and in one piece, between
/// what the arguments before it read and what those after it read. An
/// application of no arguments reads nothing, and one of a single argument
/// reads what that argument reads.
pub proof fn law_application_reads_each_argument(name: Seq<char>, args: Seq<SpecFormula>, k: int)
    requires
        0 <= k < args.len(),
    ensures
        refs(SpecFormula::Application(name, args)) == refs(
            SpecFormula::Application(name, args.take(k)),
        ) + refs(args[k]) + refs(SpecFormula::Application(name, args.skip(k + 1))),
        refs(SpecFormula::Application(name, seq![args[k]])) == refs(args[k]),
        refs(SpecFormula::Application(name, Seq::empty())) == Seq::<Coord>::empty(),
        forall|c: Coord|
            refs(args[k]).contains(c) ==> refs(SpecFormula::Application(name, args)).contains(c),
{
    let one = seq![args[k]];
    assert(one.drop_last() =~= Seq::<SpecFormula>::empty());
    assert(one.last() == args[k]);
    assert(args_refs(one.drop_last()) =~= Seq::<Coord>::empty());
    assert(args_refs(one) =~= refs(args[k]));
    assert(args =~= args.take(k) + one + args.skip(k + 1));
    lemma_args_refs_concat(args.take(k) + one, args.skip(k + 1));
    lemma_args_refs_concat(args.take(k), one);
    let whole = refs(SpecFormula::Application(name, args));
    let before = args_refs(args.take(k));
    assert(whole == before + refs(args[k]) + args_refs(args.skip(k + 1)));
    assert forall|c: Coord| refs(args[k]).contains(c) implies whole.contains(c) by {
        let i = choose|i: int| 0 <= i < refs(args[k]).len() && refs(args[k])[i] == c;
        assert(whole[before.len() + i] == c);
    }
}

} // verus!
