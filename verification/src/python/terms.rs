//! The terms of an additive fit.

use vstd::prelude::*;

use crate::python::{quote, quoted};
use crate::text::{decimal, decimal_text, join3, same_text};

verus! {

/// An element of a term, as far as the rules look at it.
pub enum Elem {
    /// An integer.
    Int(usize),
    /// A text.
    Text(String),
    /// A tuple; an element that is no integer is `None`.
    Tuple(Vec<Option<usize>>),
    /// Anything else.
    Other,
}

/// An item of the list of terms.
pub enum Item {
    /// A tuple.
    Tuple(Vec<Elem>),
    /// Anything else, with its printed form.
    Other(String),
}

/// A smooth term.
#[derive(Debug)]
pub enum TermSpec {
    /// Cubic regression spline.
    Cr {
        /// Column.
        col: usize,
        /// Dimension.
        k: usize,
    },
    /// Cubic regression spline in stable coordinates.
    CrStable {
        /// Column.
        col: usize,
        /// Dimension.
        k: usize,
    },
    /// Random effect.
    Re {
        /// Column.
        col: usize,
    },
    /// Thin-plate spline.
    Tps {
        /// Columns.
        cols: Vec<usize>,
        /// Dimension.
        k: usize,
    },
    /// Tensor product of two cubic margins.
    Tensor {
        /// First column.
        col_a: usize,
        /// Second column.
        col_b: usize,
        /// First dimension.
        k_a: usize,
        /// Second dimension.
        k_b: usize,
    },
    /// Tensor product of cubic margins.
    TeMulti {
        /// Columns.
        cols: Vec<usize>,
        /// Dimensions.
        ks: Vec<usize>,
    },
    /// Tensor interaction of cubic margins.
    Ti {
        /// Columns.
        cols: Vec<usize>,
        /// Dimensions.
        ks: Vec<usize>,
    },
}

/// A smooth term by its values.
pub enum TermView {
    /// Cubic regression spline.
    Cr(usize, usize),
    /// Cubic regression spline in stable coordinates.
    CrStable(usize, usize),
    /// Random effect.
    Re(usize),
    /// Thin-plate spline.
    Tps(Seq<usize>, usize),
    /// Tensor product of two cubic margins: columns, then dimensions.
    Tensor(usize, usize, usize, usize),
    /// Tensor product of cubic margins.
    TeMulti(Seq<usize>, Seq<usize>),
    /// Tensor interaction of cubic margins.
    Ti(Seq<usize>, Seq<usize>),
}

impl View for TermSpec {
    type V = TermView;

    open spec fn view(&self) -> TermView {
        match self {
            TermSpec::Cr { col, k } => TermView::Cr(*col, *k),
            TermSpec::CrStable { col, k } => TermView::CrStable(*col, *k),
            TermSpec::Re { col } => TermView::Re(*col),
            TermSpec::Tps { cols, k } => TermView::Tps(cols@, *k),
            TermSpec::Tensor { col_a, col_b, k_a, k_b } => TermView::Tensor(*col_a, *col_b, *k_a, *k_b),
            TermSpec::TeMulti { cols, ks } => TermView::TeMulti(cols@, ks@),
            TermSpec::Ti { cols, ks } => TermView::Ti(cols@, ks@),
        }
    }
}

/// Why a term is refused.
#[derive(Debug)]
pub enum TermError {
    /// A rule is broken; the text says which.
    Value(String),
    /// A text was expected.
    NotText,
    /// An integer was expected.
    NotInteger,
}

/// Why a term is refused, by its values.
pub enum TermErrorView {
    /// A rule is broken.
    Value(Seq<char>),
    /// A text was expected.
    NotText,
    /// An integer was expected.
    NotInteger,
}

impl View for TermError {
    type V = TermErrorView;

    open spec fn view(&self) -> TermErrorView {
        match self {
            TermError::Value(m) => TermErrorView::Value(m@),
            TermError::NotText => TermErrorView::NotText,
            TermError::NotInteger => TermErrorView::NotInteger,
        }
    }
}

/// `head`, the number of the term, then `rest`.
pub open spec fn about(head: Seq<char>, j: usize, rest: Seq<char>) -> Seq<char> {
    head + decimal(j as nat) + rest
}

/// The integers of a tuple, `None` where one is none.
pub open spec fn integers(t: Seq<Option<usize>>) -> Option<Seq<usize>> {
    if forall|i: int| 0 <= i < t.len() ==> (#[trigger] t[i]) is Some {
        Some(Seq::new(t.len(), |i: int| t[i]->0))
    } else {
        None
    }
}

/// The dimension of a thin-plate spline of `n` columns that none is given for.
pub open spec fn tps_default(n: nat) -> usize {
    if 10 * n > usize::MAX {
        usize::MAX
    } else {
        (10 * n) as usize
    }
}

/// The third element as an integer, or a default where there is none.
pub open spec fn third_integer(t: Seq<Elem>, default: usize) -> Option<usize> {
    if t.len() >= 3 {
        match t[2] {
            Elem::Int(k) => Some(k),
            _ => None,
        }
    } else {
        Some(default)
    }
}

/// A thin-plate spline.
pub open spec fn tps_of(j: usize, t: Seq<Elem>) -> Result<TermView, TermErrorView> {
    match t[0] {
        Elem::Tuple(c) => if c@.len() < 2 {
            Err(
                TermErrorView::Value(
                    about(
                        "fit_additive: tps term "@,
                        j,
                        " cols tuple must have at least 2 elements"@,
                    ),
                ),
            )
        } else {
            match integers(c@) {
                Some(cols) => match third_integer(t, tps_default(c@.len())) {
                    Some(k) => Ok(TermView::Tps(cols, k)),
                    None => Err(TermErrorView::NotInteger),
                },
                None => Err(TermErrorView::NotInteger),
            }
        },
        _ => Err(
            TermErrorView::Value(
                about(
                    "fit_additive: tps term "@,
                    j,
                    " first element must be a tuple of column indices"@,
                ),
            ),
        ),
    }
}

/// The dimensions of a tensor term of `n` margins: given ones, or 5 each.
pub open spec fn margins_of(j: usize, t: Seq<Elem>, n: nat) -> Result<Seq<usize>, TermErrorView> {
    if t.len() >= 3 {
        match t[2] {
            Elem::Tuple(k) => if k@.len() != n {
                Err(
                    TermErrorView::Value(
                        about("fit_additive: term "@, j, " k tuple length ("@) + decimal(k@.len())
                            + ") must match cols length ("@ + decimal(n) + ")"@,
                    ),
                )
            } else {
                match integers(k@) {
                    Some(ks) => Ok(ks),
                    None => Err(TermErrorView::NotInteger),
                }
            },
            _ => Err(
                TermErrorView::Value(
                    about(
                        "fit_additive: term "@,
                        j,
                        " k must be a tuple of marginal basis dims"@,
                    ),
                ),
            ),
        }
    } else {
        Ok(Seq::new(n, |i: int| 5usize))
    }
}

/// A tensor product or interaction of several margins.
pub open spec fn multi_of(j: usize, t: Seq<Elem>, interaction: bool) -> Result<TermView, TermErrorView> {
    match t[0] {
        Elem::Tuple(c) => if c@.len() < 2 {
            Err(
                TermErrorView::Value(
                    about("fit_additive: term "@, j, " cols tuple must have at least 2 elements"@),
                ),
            )
        } else {
            match integers(c@) {
                Some(cols) => match margins_of(j, t, c@.len()) {
                    Ok(ks) => if interaction {
                        Ok(TermView::Ti(cols, ks))
                    } else {
                        Ok(TermView::TeMulti(cols, ks))
                    },
                    Err(e) => Err(e),
                },
                None => Err(TermErrorView::NotInteger),
            }
        },
        _ => Err(
            TermErrorView::Value(
                about(
                    "fit_additive: term "@,
                    j,
                    " first element must be a tuple of column indices"@,
                ),
            ),
        ),
    }
}

/// The two dimensions of a tensor product: given ones, or 10 each.
pub open spec fn two_margins_of(j: usize, t: Seq<Elem>) -> Result<(usize, usize), TermErrorView> {
    if t.len() >= 3 {
        match t[2] {
            Elem::Tuple(k) => if k@.len() != 2 {
                Err(
                    TermErrorView::Value(
                        about(
                            "fit_additive: tensor term "@,
                            j,
                            " k tuple must have exactly 2 elements"@,
                        ),
                    ),
                )
            } else {
                match integers(k@) {
                    Some(ks) => Ok((ks[0], ks[1])),
                    None => Err(TermErrorView::NotInteger),
                }
            },
            _ => Err(
                TermErrorView::Value(
                    about("fit_additive: tensor term "@, j, " k must be a (k_a, k_b) tuple"@),
                ),
            ),
        }
    } else {
        Ok((10usize, 10usize))
    }
}

/// A tensor product of two margins.
pub open spec fn tensor_of(j: usize, t: Seq<Elem>) -> Result<TermView, TermErrorView> {
    match t[0] {
        Elem::Tuple(c) => if c@.len() != 2 {
            Err(
                TermErrorView::Value(
                    about(
                        "fit_additive: tensor term "@,
                        j,
                        " cols tuple must have exactly 2 elements"@,
                    ),
                ),
            )
        } else {
            match integers(c@) {
                Some(cols) => match two_margins_of(j, t) {
                    Ok(ks) => Ok(TermView::Tensor(cols[0], cols[1], ks.0, ks.1)),
                    Err(e) => Err(e),
                },
                None => Err(TermErrorView::NotInteger),
            }
        },
        _ => Err(
            TermErrorView::Value(
                about(
                    "fit_additive: tensor term "@,
                    j,
                    " first element must be a (col_a, col_b) tuple"@,
                ),
            ),
        ),
    }
}

/// The dimension of a cubic spline, which has to be given.
pub open spec fn required_dimension(j: usize, t: Seq<Elem>) -> Result<usize, TermErrorView> {
    if t.len() < 3 {
        Err(
            TermErrorView::Value(
                about(
                    "fit_additive: term "@,
                    j,
                    " k is required for basis 'cr' and 'cr_stable'"@,
                ),
            ),
        )
    } else {
        match t[2] {
            Elem::Int(k) => Ok(k),
            _ => Err(TermErrorView::NotInteger),
        }
    }
}

/// A term of one column. A cubic spline needs its dimension; a random effect takes
/// none.
pub open spec fn single_of(j: usize, t: Seq<Elem>, basis: Seq<char>) -> Result<TermView, TermErrorView> {
    match t[0] {
        Elem::Int(col) => if basis == "cr"@ {
            match required_dimension(j, t) {
                Ok(k) => Ok(TermView::Cr(col, k)),
                Err(e) => Err(e),
            }
        } else if basis == "cr_stable"@ {
            match required_dimension(j, t) {
                Ok(k) => Ok(TermView::CrStable(col, k)),
                Err(e) => Err(e),
            }
        } else if basis == "re"@ {
            Ok(TermView::Re(col))
        } else {
            Err(
                TermErrorView::Value(
                    about(
                        "fit_additive: term "@,
                        j,
                        " basis must be 'cr', 'cr_stable', 're', 'te', 'te_multi', 'ti', or 'tp'; got "@,
                    ) + quoted(basis),
                ),
            )
        },
        _ => Err(
            TermErrorView::Value(
                about(
                    "fit_additive: univariate term "@,
                    j,
                    " first element must be an integer column index"@,
                ),
            ),
        ),
    }
}

/// The term that an item of the list stands for, or why it is refused.
pub open spec fn term_of(j: usize, item: Item) -> Result<TermView, TermErrorView> {
    match item {
        Item::Other(shown) => Err(
            TermErrorView::Value(
                about("fit_additive: term "@, j, " must be a tuple; got "@) + shown@,
            ),
        ),
        Item::Tuple(t) => if t@.len() < 2 {
            Err(
                TermErrorView::Value(
                    about("fit_additive: term "@, j, " tuple must have at least 2 elements"@),
                ),
            )
        } else {
            match t@[1] {
                Elem::Text(basis) => if basis@ == "tp"@ {
                    tps_of(j, t@)
                } else if basis@ == "te_multi"@ {
                    multi_of(j, t@, false)
                } else if basis@ == "ti"@ {
                    multi_of(j, t@, true)
                } else if basis@ == "te"@ {
                    tensor_of(j, t@)
                } else {
                    single_of(j, t@, basis@)
                },
                _ => Err(TermErrorView::NotText),
            }
        },
    }
}

fn refused(head: &str, j: usize, rest: &str) -> (e: TermError)
    ensures
        e@ == TermErrorView::Value(about(head@, j, rest@)),
{
    let n: String = decimal_text(j);
    TermError::Value(join3(head, n.as_str(), rest))
}

fn read_integers(t: &Vec<Option<usize>>) -> (r: Option<Vec<usize>>)
    ensures
        match r {
            Some(v) => integers(t@) == Some(v@) && v@.len() == t@.len(),
            None => integers(t@) is None,
        },
{
    let mut out: Vec<usize> = Vec::new();
    for i in 0..t.len()
        invariant
            out@.len() == i,
            forall|k: int| 0 <= k < i ==> (#[trigger] t@[k]) is Some && out@[k] == t@[k]->0,
    {
        match t[i] {
            Some(v) => {
                out.push(v);
            },
            None => {
                assert(t@[i as int] is None);
                return None;
            },
        }
    }
    assert(out@ =~= Seq::new(t@.len(), |i: int| t@[i]->0));
    Some(out)
}

fn read_third(t: &Vec<Elem>, default: usize) -> (r: Option<usize>)
    ensures
        r == third_integer(t@, default),
{
    if t.len() >= 3 {
        match &t[2] {
            Elem::Int(k) => Some(*k),
            _ => None,
        }
    } else {
        Some(default)
    }
}

fn read_tps(j: usize, t: &Vec<Elem>) -> (r: Result<TermSpec, TermError>)
    requires
        t@.len() >= 2,
    ensures
        same_outcome(r, tps_of(j, t@)),
{
    match &t[0] {
        Elem::Tuple(c) => {
            if c.len() < 2 {
                return Err(
                    refused(
                        "fit_additive: tps term ",
                        j,
                        " cols tuple must have at least 2 elements",
                    ),
                );
            }
            let cols: Vec<usize> = match read_integers(c) {
                Some(v) => v,
                None => return Err(TermError::NotInteger),
            };
            let default: usize = if cols.len() > usize::MAX / 10 {
                usize::MAX
            } else {
                10 * cols.len()
            };
            match read_third(t, default) {
                Some(k) => Ok(TermSpec::Tps { cols, k }),
                None => Err(TermError::NotInteger),
            }
        },
        _ => Err(
            refused(
                "fit_additive: tps term ",
                j,
                " first element must be a tuple of column indices",
            ),
        ),
    }
}

/// A term, or why it is refused, is the one that the rules give.
pub open spec fn same_outcome(r: Result<TermSpec, TermError>, s: Result<TermView, TermErrorView>) -> bool {
    match r {
        Ok(t) => s == Ok::<TermView, TermErrorView>(t@),
        Err(e) => s == Err::<TermView, TermErrorView>(e@),
    }
}

fn read_margins(j: usize, t: &Vec<Elem>, n: usize) -> (r: Result<Vec<usize>, TermError>)
    ensures
        match r {
            Ok(v) => margins_of(j, t@, n as nat) == Ok::<Seq<usize>, TermErrorView>(v@),
            Err(e) => margins_of(j, t@, n as nat) == Err::<Seq<usize>, TermErrorView>(e@),
        },
{
    if t.len() >= 3 {
        match &t[2] {
            Elem::Tuple(k) => {
                if k.len() != n {
                    let nj: String = decimal_text(j);
                    let nk: String = decimal_text(k.len());
                    let nn: String = decimal_text(n);
                    let mut m: String = join3(
                        "fit_additive: term ",
                        nj.as_str(),
                        " k tuple length (",
                    );
                    m.append(nk.as_str());
                    m.append(") must match cols length (");
                    m.append(nn.as_str());
                    m.append(")");
                    return Err(TermError::Value(m));
                }
                match read_integers(k) {
                    Some(v) => Ok(v),
                    None => Err(TermError::NotInteger),
                }
            },
            _ => Err(
                refused("fit_additive: term ", j, " k must be a tuple of marginal basis dims"),
            ),
        }
    } else {
        let mut v: Vec<usize> = Vec::new();
        for i in 0..n
            invariant
                v@.len() == i,
                forall|k: int| 0 <= k < i ==> #[trigger] v@[k] == 5,
        {
            v.push(5);
        }
        assert(v@ =~= Seq::new(n as nat, |i: int| 5usize));
        Ok(v)
    }
}

fn read_multi(j: usize, t: &Vec<Elem>, interaction: bool) -> (r: Result<TermSpec, TermError>)
    requires
        t@.len() >= 2,
    ensures
        same_outcome(r, multi_of(j, t@, interaction)),
{
    match &t[0] {
        Elem::Tuple(c) => {
            if c.len() < 2 {
                return Err(
                    refused(
                        "fit_additive: term ",
                        j,
                        " cols tuple must have at least 2 elements",
                    ),
                );
            }
            let cols: Vec<usize> = match read_integers(c) {
                Some(v) => v,
                None => return Err(TermError::NotInteger),
            };
            match read_margins(j, t, cols.len()) {
                Ok(ks) => if interaction {
                    Ok(TermSpec::Ti { cols, ks })
                } else {
                    Ok(TermSpec::TeMulti { cols, ks })
                },
                Err(e) => Err(e),
            }
        },
        _ => Err(
            refused(
                "fit_additive: term ",
                j,
                " first element must be a tuple of column indices",
            ),
        ),
    }
}

fn read_two_margins(j: usize, t: &Vec<Elem>) -> (r: Result<(usize, usize), TermError>)
    ensures
        match r {
            Ok(v) => two_margins_of(j, t@) == Ok::<(usize, usize), TermErrorView>(v),
            Err(e) => two_margins_of(j, t@) == Err::<(usize, usize), TermErrorView>(e@),
        },
{
    if t.len() >= 3 {
        match &t[2] {
            Elem::Tuple(k) => {
                if k.len() != 2 {
                    return Err(
                        refused(
                            "fit_additive: tensor term ",
                            j,
                            " k tuple must have exactly 2 elements",
                        ),
                    );
                }
                match read_integers(k) {
                    Some(v) => Ok((v[0], v[1])),
                    None => Err(TermError::NotInteger),
                }
            },
            _ => Err(refused("fit_additive: tensor term ", j, " k must be a (k_a, k_b) tuple")),
        }
    } else {
        Ok((10, 10))
    }
}

fn read_tensor(j: usize, t: &Vec<Elem>) -> (r: Result<TermSpec, TermError>)
    requires
        t@.len() >= 2,
    ensures
        same_outcome(r, tensor_of(j, t@)),
{
    match &t[0] {
        Elem::Tuple(c) => {
            if c.len() != 2 {
                return Err(
                    refused(
                        "fit_additive: tensor term ",
                        j,
                        " cols tuple must have exactly 2 elements",
                    ),
                );
            }
            let cols: Vec<usize> = match read_integers(c) {
                Some(v) => v,
                None => return Err(TermError::NotInteger),
            };
            match read_two_margins(j, t) {
                Ok(ks) => Ok(
                    TermSpec::Tensor { col_a: cols[0], col_b: cols[1], k_a: ks.0, k_b: ks.1 },
                ),
                Err(e) => Err(e),
            }
        },
        _ => Err(
            refused(
                "fit_additive: tensor term ",
                j,
                " first element must be a (col_a, col_b) tuple",
            ),
        ),
    }
}

fn read_dimension(j: usize, t: &Vec<Elem>) -> (r: Result<usize, TermError>)
    ensures
        match r {
            Ok(k) => required_dimension(j, t@) == Ok::<usize, TermErrorView>(k),
            Err(e) => required_dimension(j, t@) == Err::<usize, TermErrorView>(e@),
        },
{
    if t.len() < 3 {
        return Err(
            refused(
                "fit_additive: term ",
                j,
                " k is required for basis 'cr' and 'cr_stable'",
            ),
        );
    }
    match &t[2] {
        Elem::Int(k) => Ok(*k),
        _ => Err(TermError::NotInteger),
    }
}

fn read_single(j: usize, t: &Vec<Elem>, basis: &str) -> (r: Result<TermSpec, TermError>)
    requires
        t@.len() >= 2,
    ensures
        same_outcome(r, single_of(j, t@, basis@)),
{
    match &t[0] {
        Elem::Int(c) => {
            let col: usize = *c;
            if same_text(basis, "cr") {
                return match read_dimension(j, t) {
                    Ok(k) => Ok(TermSpec::Cr { col, k }),
                    Err(e) => Err(e),
                };
            }
            if same_text(basis, "cr_stable") {
                return match read_dimension(j, t) {
                    Ok(k) => Ok(TermSpec::CrStable { col, k }),
                    Err(e) => Err(e),
                };
            }
            if same_text(basis, "re") {
                return Ok(TermSpec::Re { col });
            }
            let n: String = decimal_text(j);
            let q: String = quote(basis);
            let mut m: String = join3(
                "fit_additive: term ",
                n.as_str(),
                " basis must be 'cr', 'cr_stable', 're', 'te', 'te_multi', 'ti', or 'tp'; got ",
            );
            m.append(q.as_str());
            Err(TermError::Value(m))
        },
        _ => Err(
            refused(
                "fit_additive: univariate term ",
                j,
                " first element must be an integer column index",
            ),
        ),
    }
}

/// The term that an item of the list stands for.
pub fn read_term(j: usize, item: &Item) -> (r: Result<TermSpec, TermError>)
    ensures
        same_outcome(r, term_of(j, *item)),
{
    match item {
        Item::Other(shown) => {
            let n: String = decimal_text(j);
            let mut m: String = join3("fit_additive: term ", n.as_str(), " must be a tuple; got ");
            m.append(shown.as_str());
            Err(TermError::Value(m))
        },
        Item::Tuple(t) => {
            if t.len() < 2 {
                return Err(
                    refused("fit_additive: term ", j, " tuple must have at least 2 elements"),
                );
            }
            match &t[1] {
                Elem::Text(basis) => {
                    if same_text(basis.as_str(), "tp") {
                        read_tps(j, t)
                    } else if same_text(basis.as_str(), "te_multi") {
                        read_multi(j, t, false)
                    } else if same_text(basis.as_str(), "ti") {
                        read_multi(j, t, true)
                    } else if same_text(basis.as_str(), "te") {
                        read_tensor(j, t)
                    } else {
                        read_single(j, t, basis.as_str())
                    }
                },
                _ => Err(TermError::NotText),
            }
        },
    }
}

/// Cubic regression splines of given dimensions on the first columns.
pub fn cubic_terms(k_per_term: &Vec<usize>) -> (r: Vec<TermSpec>)
    ensures
        r@.len() == k_per_term@.len(),
        forall|j: int|
            0 <= j < r@.len() ==> (#[trigger] r@[j])@ == TermView::Cr(j as usize, k_per_term@[j]),
{
    let mut r: Vec<TermSpec> = Vec::new();
    for j in 0..k_per_term.len()
        invariant
            r@.len() == j,
            forall|i: int|
                0 <= i < j ==> (#[trigger] r@[i])@ == TermView::Cr(i as usize, k_per_term@[i]),
    {
        r.push(TermSpec::Cr { col: j, k: k_per_term[j] });
    }
    r
}

/// The first `n` items are all understood.
pub open spec fn understood(items: Seq<Item>, n: nat) -> bool {
    forall|j: int| 0 <= j < n ==> (#[trigger] term_of(j as usize, items[j])) is Ok
}

/// One term for each item, and at least one.
pub open spec fn terms_read(items: Seq<Item>, out: Seq<TermSpec>) -> bool {
    &&& out.len() == items.len()
    &&& items.len() > 0
    &&& forall|j: int|
        0 <= j < items.len() ==> term_of(j as usize, items[j]) == Ok::<TermView, TermErrorView>(
            (#[trigger] out[j])@,
        )
}

/// The first item that is not understood says why; an empty list is refused.
pub open spec fn terms_refused(items: Seq<Item>, e: TermError) -> bool {
    ||| items.len() == 0 && e@ == TermErrorView::Value(
        "fit_additive: terms list must be non-empty"@,
    )
    ||| exists|j: int|
        0 <= j < items.len() && understood(items, j as nat) && #[trigger] term_of(
            j as usize,
            items[j],
        ) == Err::<TermView, TermErrorView>(e@)
}

/// The terms of an additive fit.
pub fn build_term_specs(items: &Vec<Item>) -> (r: Result<Vec<TermSpec>, TermError>)
    ensures
        match r {
            Ok(out) => terms_read(items@, out@),
            Err(e) => terms_refused(items@, e),
        },
{
    let mut out: Vec<TermSpec> = Vec::new();
    for j in 0..items.len()
        invariant
            out@.len() == j,
            understood(items@, j as nat),
            forall|k: int|
                0 <= k < j ==> term_of(k as usize, items@[k]) == Ok::<TermView, TermErrorView>(
                    (#[trigger] out@[k])@,
                ),
    {
        match read_term(j, &items[j]) {
            Ok(t) => {
                out.push(t);
            },
            Err(e) => {
                assert(term_of(j as usize, items@[j as int]) == Err::<TermView, TermErrorView>(e@));
                return Err(e);
            },
        }
    }
    if out.len() == 0 {
        return Err(TermError::Value("fit_additive: terms list must be non-empty".to_owned()));
    }
    Ok(out)
}

} // verus!
