//! The diagnostic model: a closed taxonomy of failure kinds, each
//! anchored to at least one `Span`, and the nearest-match suggester used
//! by name-lookup failures.

use vstd::prelude::*;

use crate::edit::{edit_distance, lex_le, lemma_lex_le_total, lemma_edit_distance_step,
    lemma_edit_distance_empty, lemma_edit_distance_bound, min3};
use crate::span::Span;

verus! {

/// The runtime type of a structured value, as named in diagnostics.
#[derive(Clone, Copy, Debug, PartialEq, Eq, Structural)]
pub enum Type {
    Nothing,
    Bool,
    Int,
    String,
    Binary,
    Record,
    List,
    Range,
    Error,
    Block,
}

/// The text a diagnostic uses for each runtime type.
pub open spec fn type_text(t: Type) -> Seq<char> {
    match t {
        Type::Nothing => "nothing"@,
        Type::Bool => "bool"@,
        Type::Int => "int"@,
        Type::String => "string"@,
        Type::Binary => "binary"@,
        Type::Record => "record"@,
        Type::List => "list"@,
        Type::Range => "range"@,
        Type::Error => "error"@,
        Type::Block => "block"@,
    }
}

impl Type {
    /// The name of the type as it appears in messages.
    pub fn label(&self) -> (r: String)
        ensures
            r@ == type_text(*self),
    {
        match self {
            Type::Nothing => String::from_str("nothing"),
            Type::Bool => String::from_str("bool"),
            Type::Int => String::from_str("int"),
            Type::String => String::from_str("string"),
            Type::Binary => String::from_str("binary"),
            Type::Record => String::from_str("record"),
            Type::List => String::from_str("list"),
            Type::Range => String::from_str("range"),
            Type::Error => String::from_str("error"),
            Type::Block => String::from_str("block"),
        }
    }
}

/// The fundamental error type of the evaluation engine. Every fallible
/// operation reports one of these kinds, carrying the spans a renderer
/// needs to point back into the source.
#[derive(Debug)]
pub enum ShellError {
    /// A binary operator was applied to operands of incompatible types.
    OperatorMismatch { op_span: Span, lhs_ty: Type, lhs_span: Span, rhs_ty: Type, rhs_span: Span },
    /// Integer arithmetic left the representable range.
    OperatorOverflow(String, Span),
    /// A pipeline stage received input of the wrong shape.
    PipelineMismatch(String, Span, Span),
    /// A value had the wrong type for the requested operation.
    TypeMismatch(String, Span),
    /// The input as a whole cannot be processed by this command.
    UnsupportedInput(String, Span),
    /// A conversion between representations failed.
    CantConvert(String, String, Span),
    /// A delimiter was malformed or unbalanced.
    DelimiterError(String, Span),
    DivisionByZero(Span),
    InvalidRange(String, String, Span),
    /// A variable id had no binding in any reachable scope frame.
    VariableNotFoundAtRuntime(Span),
    /// An environment key had no visible binding.
    EnvVarNotFoundAtRuntime(Span),
    /// A command name had no visible declaration.
    CommandNotFound(Span),
    /// Nothing visible was found under a name (hide of an unbound name).
    NotFound(Span),
    /// A name lookup failed but a near match exists.
    DidYouMean(String, Span),
    /// A record has no column of the attempted name; `suggestion` is the
    /// existing column nearest in edit distance, if the record has any.
    CantFindColumn { col_name: String, suggestion: Option<String>, col_span: Span, src_span: Span },
    /// An integer path member was applied to a value that is not a list.
    NotAList(Span, Span),
    /// A string path member was applied to a value that supports no cell
    /// paths at all; the text names the offending type.
    IncompatiblePathAccess(String, Span),
    /// A row index ran past the end; the payload is the length.
    AccessBeyondEnd(usize, Span),
    /// Two declarations of one name in the same block.
    DuplicateDeclaration(Vec<u8>, Span),
    /// A module import referenced a name the module does not export.
    ImportSymbolMissing(Vec<u8>, Span),
    /// A collaborator reported an input/output failure; wrapped verbatim.
    IOError(String),
    UnsupportedConfigValue(String, String, Span),
    /// An internal invariant of this engine was violated. Never expected
    /// to be reachable from user input.
    EngineFailed(String),
}

/// The mathematical image of a `ShellError`: the same taxonomy with every
/// string taken as its character sequence.
#[verifier::ext_equal]
pub ghost enum ErrModel {
    OperatorMismatch { op_span: Span, lhs_ty: Type, lhs_span: Span, rhs_ty: Type, rhs_span: Span },
    OperatorOverflow(Seq<char>, Span),
    PipelineMismatch(Seq<char>, Span, Span),
    TypeMismatch(Seq<char>, Span),
    UnsupportedInput(Seq<char>, Span),
    CantConvert(Seq<char>, Seq<char>, Span),
    DelimiterError(Seq<char>, Span),
    DivisionByZero(Span),
    InvalidRange(Seq<char>, Seq<char>, Span),
    VariableNotFoundAtRuntime(Span),
    EnvVarNotFoundAtRuntime(Span),
    CommandNotFound(Span),
    NotFound(Span),
    DidYouMean(Seq<char>, Span),
    CantFindColumn {
        col_name: Seq<char>,
        suggestion: Option<Seq<char>>,
        col_span: Span,
        src_span: Span,
    },
    NotAList(Span, Span),
    IncompatiblePathAccess(Seq<char>, Span),
    AccessBeyondEnd(usize, Span),
    DuplicateDeclaration(Seq<u8>, Span),
    ImportSymbolMissing(Seq<u8>, Span),
    IOError(Seq<char>),
    UnsupportedConfigValue(Seq<char>, Seq<char>, Span),
    EngineFailed(Seq<char>),
}

/// Maps an error onto its mathematical image.
pub open spec fn err_model(e: ShellError) -> ErrModel {
    match e {
        ShellError::OperatorMismatch { op_span, lhs_ty, lhs_span, rhs_ty, rhs_span } => {
            ErrModel::OperatorMismatch { op_span, lhs_ty, lhs_span, rhs_ty, rhs_span }
        },
        ShellError::OperatorOverflow(m, s) => ErrModel::OperatorOverflow(m@, s),
        ShellError::PipelineMismatch(m, s1, s2) => ErrModel::PipelineMismatch(m@, s1, s2),
        ShellError::TypeMismatch(m, s) => ErrModel::TypeMismatch(m@, s),
        ShellError::UnsupportedInput(m, s) => ErrModel::UnsupportedInput(m@, s),
        ShellError::CantConvert(m1, m2, s) => ErrModel::CantConvert(m1@, m2@, s),
        ShellError::DelimiterError(m, s) => ErrModel::DelimiterError(m@, s),
        ShellError::DivisionByZero(s) => ErrModel::DivisionByZero(s),
        ShellError::InvalidRange(m1, m2, s) => ErrModel::InvalidRange(m1@, m2@, s),
        ShellError::VariableNotFoundAtRuntime(s) => ErrModel::VariableNotFoundAtRuntime(s),
        ShellError::EnvVarNotFoundAtRuntime(s) => ErrModel::EnvVarNotFoundAtRuntime(s),
        ShellError::CommandNotFound(s) => ErrModel::CommandNotFound(s),
        ShellError::NotFound(s) => ErrModel::NotFound(s),
        ShellError::DidYouMean(m, s) => ErrModel::DidYouMean(m@, s),
        ShellError::CantFindColumn { col_name, suggestion, col_span, src_span } => {
            ErrModel::CantFindColumn {
                col_name: col_name@,
                suggestion: match suggestion {
                    Option::Some(w) => Option::Some(w@),
                    Option::None => Option::None,
                },
                col_span,
                src_span,
            }
        },
        ShellError::NotAList(s1, s2) => ErrModel::NotAList(s1, s2),
        ShellError::IncompatiblePathAccess(m, s) => ErrModel::IncompatiblePathAccess(m@, s),
        ShellError::AccessBeyondEnd(n, s) => ErrModel::AccessBeyondEnd(n, s),
        ShellError::DuplicateDeclaration(m, s) => ErrModel::DuplicateDeclaration(m@, s),
        ShellError::ImportSymbolMissing(m, s) => ErrModel::ImportSymbolMissing(m@, s),
        ShellError::IOError(m) => ErrModel::IOError(m@),
        ShellError::UnsupportedConfigValue(m1, m2, s) => ErrModel::UnsupportedConfigValue(
            m1@,
            m2@,
            s,
        ),
        ShellError::EngineFailed(m) => ErrModel::EngineFailed(m@),
    }
}

impl View for ShellError {
    type V = ErrModel;

    open spec fn view(&self) -> ErrModel {
        err_model(*self)
    }
}

impl ShellError {
    /// Rebuilds an equal diagnostic; used where an error value must live
    /// in two places (for instance stored into a row and also reported).
    pub fn duplicate(&self) -> (r: ShellError)
        ensures
            r@ == self@,
    {
        match self {
            ShellError::OperatorMismatch { op_span, lhs_ty, lhs_span, rhs_ty, rhs_span } => {
                ShellError::OperatorMismatch {
                    op_span: *op_span,
                    lhs_ty: *lhs_ty,
                    lhs_span: *lhs_span,
                    rhs_ty: *rhs_ty,
                    rhs_span: *rhs_span,
                }
            },
            ShellError::OperatorOverflow(m, s) => ShellError::OperatorOverflow(m.clone(), *s),
            ShellError::PipelineMismatch(m, s1, s2) => ShellError::PipelineMismatch(
                m.clone(),
                *s1,
                *s2,
            ),
            ShellError::TypeMismatch(m, s) => ShellError::TypeMismatch(m.clone(), *s),
            ShellError::UnsupportedInput(m, s) => ShellError::UnsupportedInput(m.clone(), *s),
            ShellError::CantConvert(m1, m2, s) => ShellError::CantConvert(
                m1.clone(),
                m2.clone(),
                *s,
            ),
            ShellError::DelimiterError(m, s) => ShellError::DelimiterError(m.clone(), *s),
            ShellError::DivisionByZero(s) => ShellError::DivisionByZero(*s),
            ShellError::InvalidRange(m1, m2, s) => ShellError::InvalidRange(
                m1.clone(),
                m2.clone(),
                *s,
            ),
            ShellError::VariableNotFoundAtRuntime(s) => ShellError::VariableNotFoundAtRuntime(*s),
            ShellError::EnvVarNotFoundAtRuntime(s) => ShellError::EnvVarNotFoundAtRuntime(*s),
            ShellError::CommandNotFound(s) => ShellError::CommandNotFound(*s),
            ShellError::NotFound(s) => ShellError::NotFound(*s),
            ShellError::DidYouMean(m, s) => ShellError::DidYouMean(m.clone(), *s),
            ShellError::CantFindColumn { col_name, suggestion, col_span, src_span } => {
                ShellError::CantFindColumn {
                    col_name: col_name.clone(),
                    suggestion: match suggestion {
                        Option::Some(w) => Option::Some(w.clone()),
                        Option::None => Option::None,
                    },
                    col_span: *col_span,
                    src_span: *src_span,
                }
            },
            ShellError::NotAList(s1, s2) => ShellError::NotAList(*s1, *s2),
            ShellError::IncompatiblePathAccess(m, s) => ShellError::IncompatiblePathAccess(
                m.clone(),
                *s,
            ),
            ShellError::AccessBeyondEnd(n, s) => ShellError::AccessBeyondEnd(*n, *s),
            ShellError::DuplicateDeclaration(m, s) => ShellError::DuplicateDeclaration(
                crate::value::bytes_clone(m),
                *s,
            ),
            ShellError::ImportSymbolMissing(m, s) => ShellError::ImportSymbolMissing(
                crate::value::bytes_clone(m),
                *s,
            ),
            ShellError::IOError(m) => ShellError::IOError(m.clone()),
            ShellError::UnsupportedConfigValue(m1, m2, s) => ShellError::UnsupportedConfigValue(
                m1.clone(),
                m2.clone(),
                *s,
            ),
            ShellError::EngineFailed(m) => ShellError::EngineFailed(m.clone()),
        }
    }
}

/// True exactly when both options hold view-equal strings or both are
/// empty.
fn opt_str_eq(a: &Option<String>, b: &Option<String>) -> (r: bool)
    ensures
        r == (match (a, b) {
            (Option::Some(x), Option::Some(y)) => x@ == y@,
            (Option::None, Option::None) => true,
            _ => false,
        }),
{
    match (a, b) {
        (Option::Some(x), Option::Some(y)) => *x == *y,
        (Option::None, Option::None) => true,
        _ => false,
    }
}

/// Compares two diagnostics by their mathematical images.
pub fn err_eq(a: &ShellError, b: &ShellError) -> (r: bool)
    ensures
        r == (a@ == b@),
{
    match (a, b) {
        (
            ShellError::OperatorMismatch {
                op_span: o1,
                lhs_ty: lt1,
                lhs_span: ls1,
                rhs_ty: rt1,
                rhs_span: rs1,
            },
            ShellError::OperatorMismatch {
                op_span: o2,
                lhs_ty: lt2,
                lhs_span: ls2,
                rhs_ty: rt2,
                rhs_span: rs2,
            },
        ) => *o1 == *o2 && *lt1 == *lt2 && *ls1 == *ls2 && *rt1 == *rt2 && *rs1 == *rs2,
        (ShellError::OperatorOverflow(m1, s1), ShellError::OperatorOverflow(m2, s2)) => *m1 == *m2
            && *s1 == *s2,
        (
            ShellError::PipelineMismatch(m1, x1, y1),
            ShellError::PipelineMismatch(m2, x2, y2),
        ) => *m1 == *m2 && *x1 == *x2 && *y1 == *y2,
        (ShellError::TypeMismatch(m1, s1), ShellError::TypeMismatch(m2, s2)) => *m1 == *m2 && s1
            == s2,
        (ShellError::UnsupportedInput(m1, s1), ShellError::UnsupportedInput(m2, s2)) => *m1 == *m2
            && *s1 == *s2,
        (ShellError::CantConvert(m1, n1, s1), ShellError::CantConvert(m2, n2, s2)) => *m1 == *m2
            && *n1 == *n2 && *s1 == *s2,
        (ShellError::DelimiterError(m1, s1), ShellError::DelimiterError(m2, s2)) => *m1 == *m2 && s1
            == s2,
        (ShellError::DivisionByZero(s1), ShellError::DivisionByZero(s2)) => *s1 == *s2,
        (ShellError::InvalidRange(m1, n1, s1), ShellError::InvalidRange(m2, n2, s2)) => *m1 == *m2
            && *n1 == *n2 && *s1 == *s2,
        (
            ShellError::VariableNotFoundAtRuntime(s1),
            ShellError::VariableNotFoundAtRuntime(s2),
        ) => *s1 == *s2,
        (ShellError::EnvVarNotFoundAtRuntime(s1), ShellError::EnvVarNotFoundAtRuntime(s2)) => s1
            == s2,
        (ShellError::CommandNotFound(s1), ShellError::CommandNotFound(s2)) => *s1 == *s2,
        (ShellError::NotFound(s1), ShellError::NotFound(s2)) => *s1 == *s2,
        (ShellError::DidYouMean(m1, s1), ShellError::DidYouMean(m2, s2)) => *m1 == *m2 && *s1 == *s2,
        (
            ShellError::CantFindColumn { col_name: c1, suggestion: g1, col_span: x1, src_span: y1 },
            ShellError::CantFindColumn { col_name: c2, suggestion: g2, col_span: x2, src_span: y2 },
        ) => *c1 == *c2 && opt_str_eq(g1, g2) && *x1 == *x2 && *y1 == *y2,
        (ShellError::NotAList(x1, y1), ShellError::NotAList(x2, y2)) => *x1 == *x2 && *y1 == *y2,
        (
            ShellError::IncompatiblePathAccess(m1, s1),
            ShellError::IncompatiblePathAccess(m2, s2),
        ) => *m1 == *m2 && *s1 == *s2,
        (ShellError::AccessBeyondEnd(n1, s1), ShellError::AccessBeyondEnd(n2, s2)) => *n1 == *n2
            && *s1 == *s2,
        (
            ShellError::DuplicateDeclaration(m1, s1),
            ShellError::DuplicateDeclaration(m2, s2),
        ) => crate::value::bytes_eq(m1, m2) && *s1 == *s2,
        (
            ShellError::ImportSymbolMissing(m1, s1),
            ShellError::ImportSymbolMissing(m2, s2),
        ) => crate::value::bytes_eq(m1, m2) && *s1 == *s2,
        (ShellError::IOError(m1), ShellError::IOError(m2)) => *m1 == *m2,
        (
            ShellError::UnsupportedConfigValue(m1, n1, s1),
            ShellError::UnsupportedConfigValue(m2, n2, s2),
        ) => *m1 == *m2 && *n1 == *n2 && *s1 == *s2,
        (ShellError::EngineFailed(m1), ShellError::EngineFailed(m2)) => *m1 == *m2,
        _ => false,
    }
}

/// The candidate a nearest-match search settles on among the first `n`
/// entries of `cands`: least edit distance to `tried` first, ties to the
/// lexicographically least name, and among equal names to the earliest.
pub open spec fn nearest_match(cands: Seq<Seq<char>>, tried: Seq<char>, n: int) -> Seq<char>
    recommends
        1 <= n <= cands.len(),
    decreases n,
{
    if n <= 1 {
        cands[0]
    } else {
        let prev = nearest_match(cands, tried, n - 1);
        if edit_distance(cands[n - 1], tried) < edit_distance(prev, tried) || (edit_distance(
            cands[n - 1],
            tried,
        ) == edit_distance(prev, tried) && !lex_le(prev, cands[n - 1])) {
            cands[n - 1]
        } else {
            prev
        }
    }
}

/// What makes the nearest match "nearest": it is one of the candidates,
/// and every candidate is either farther from the attempted name or not
/// lexicographically ahead of it.
pub proof fn lemma_nearest_match_minimal(cands: Seq<Seq<char>>, tried: Seq<char>, n: int)
    requires
        1 <= n <= cands.len(),
    ensures
        exists|i: int|
            0 <= i < n && cands[i] == nearest_match(cands, tried, n),
        forall|i: int|
            0 <= i < n ==> edit_distance(nearest_match(cands, tried, n), tried) < edit_distance(
                cands[i],
                tried,
            ) || (edit_distance(nearest_match(cands, tried, n), tried) == edit_distance(
                cands[i],
                tried,
            ) && lex_le(nearest_match(cands, tried, n), cands[i])),
    decreases n,
{
    crate::edit::lemma_lex_le_self(nearest_match(cands, tried, n));
    if n == 1 {
        assert(cands[0] == nearest_match(cands, tried, 1));
    } else {
        lemma_nearest_match_minimal(cands, tried, n - 1);
        let prev = nearest_match(cands, tried, n - 1);
        let cur = nearest_match(cands, tried, n);
        lemma_lex_le_total(prev, cands[n - 1]);
        if cur == cands[n - 1] {
            assert forall|i: int|
                0 <= i < n implies edit_distance(cur, tried) < edit_distance(cands[i], tried) || (
            edit_distance(cur, tried) == edit_distance(cands[i], tried) && lex_le(
                cur,
                cands[i],
            )) by {
                if i < n - 1 && edit_distance(prev, tried) == edit_distance(cands[i], tried)
                    && lex_le(prev, cands[i]) && lex_le(cur, prev) {
                    crate::edit::lemma_lex_le_transitive(cur, prev, cands[i]);
                }
            }
        }
    }
}

/// Finds the candidate with the smallest edit distance to the attempted
/// name; among equally distant candidates the lexicographically first
/// wins. Returns `None` exactly when there are no candidates at all.
pub fn did_you_mean(possibilities: &Vec<String>, tried: &str) -> (r: Option<String>)
    ensures
        (r is None) <==> possibilities@.len() == 0,
        possibilities@.len() > 0 ==> (r matches Option::Some(w) && w@ == nearest_match(
            possibilities.deep_view(),
            tried@,
            possibilities@.len() as int,
        )),
{
    if possibilities.len() == 0 {
        return Option::None;
    }
    let ghost cands = possibilities.deep_view();
    let mut best: String = possibilities[0].clone();
    let mut best_dist: usize = levenshtein_distance(possibilities[0].as_str(), tried);
    let mut i: usize = 1;
    while i < possibilities.len()
        invariant
            1 <= i <= possibilities@.len(),
            cands == possibilities.deep_view(),
            cands.len() == possibilities@.len(),
            forall|k: int| 0 <= k < cands.len() ==> cands[k] == possibilities@[k]@,
            best@ == nearest_match(cands, tried@, i as int),
            best_dist == edit_distance(best@, tried@),
        decreases possibilities@.len() - i,
    {
        let d: usize = levenshtein_distance(possibilities[i].as_str(), tried);
        if d < best_dist || (d == best_dist && !str_le_pair(&best, &possibilities[i])) {
            best = possibilities[i].clone();
            best_dist = d;
        }
        i = i + 1;
    }
    Option::Some(best)
}

/// Compares two owned strings in lexicographic order.
fn str_le_pair(a: &String, b: &String) -> (r: bool)
    ensures
        r == lex_le(a@, b@),
{
    crate::edit::str_le(a.as_str(), b.as_str())
}

/// Computes the edit distance between two strings with the classic
/// single-row dynamic program: one rolling vector of distances, updated
/// column by column for each character of `b`.
pub fn levenshtein_distance(a: &str, b: &str) -> (r: usize)
    ensures
        r == edit_distance(a@, b@),
{
    let la: usize = a.unicode_len();
    let lb: usize = b.unicode_len();
    proof {
        assert(a@.take(la as int) =~= a@);
        assert(b@.take(lb as int) =~= b@);
        lemma_edit_distance_empty(a@, b@, la as int, lb as int);
    }
    if la == 0 {
        return lb;
    }
    if lb == 0 {
        return la;
    }
    let mut cache: Vec<usize> = Vec::new();
    let mut k: usize = 0;
    while k < la
        invariant
            0 <= k <= la,
            cache@.len() == k as int,
            la == a@.len(),
            lb == b@.len(),
            forall|j: int| 0 <= j < k ==> cache@[j] == j + 1,
        decreases la - k,
    {
        cache.push(k + 1);
        k = k + 1;
    }
    proof {
        lemma_edit_distance_empty(a@, b@, la as int, lb as int);
        assert forall|j: int| 0 <= j < la implies cache@[j] == edit_distance(
            a@.take(j + 1),
            b@.take(0),
        ) by {
            lemma_edit_distance_empty(a@, b@, j + 1, 0);
        }
    }
    let mut i: usize = 0;
    while i < lb
        invariant
            0 <= i <= lb,
            la == a@.len(),
            lb == b@.len(),
            1 <= la,
            cache@.len() == la as int,
            forall|j: int| 0 <= j < la ==> cache@[j] == edit_distance(
                a@.take(j + 1),
                b@.take(i as int),
            ),
        decreases lb - i,
    {
        let cb: char = b.get_char(i);
        // diag = distance between a-prefix of length j and b-prefix of length i
        let mut diag: usize = i;
        // left = distance between a-prefix of length j and b-prefix of length i+1
        let mut left: usize = i + 1;
        proof {
            lemma_edit_distance_empty(a@, b@, 0, i as int);
            lemma_edit_distance_empty(a@, b@, 0, i as int + 1);
            lemma_edit_distance_bound(a@, b@);
        }
        let mut j: usize = 0;
        while j < la
            invariant
                0 <= j <= la,
                0 <= i < lb,
                la == a@.len(),
                lb == b@.len(),
                cb == b@[i as int],
                cache@.len() == la as int,
                diag == edit_distance(a@.take(j as int), b@.take(i as int)),
                left == edit_distance(a@.take(j as int), b@.take(i as int + 1)),
                forall|t: int| j <= t < la ==> cache@[t] == edit_distance(
                    a@.take(t + 1),
                    b@.take(i as int),
                ),
                forall|t: int| 0 <= t < j ==> cache@[t] == edit_distance(
                    a@.take(t + 1),
                    b@.take(i as int + 1),
                ),
            decreases la - j,
        {
            let up: usize = cache[j];
            let ca: char = a.get_char(j);
            proof {
                lemma_edit_distance_step(a@, b@, j as int + 1, i as int + 1);
                lemma_edit_distance_bound(a@.take(j as int), b@.take(i as int));
                lemma_edit_distance_bound(a@.take(j as int), b@.take(i as int + 1));
                lemma_edit_distance_bound(a@.take(j as int + 1), b@.take(i as int));
            }
            let new_val: usize = if ca == cb {
                diag
            } else {
                let m1: usize = if up < left {
                    up
                } else {
                    left
                };
                let m: usize = if diag < m1 {
                    diag
                } else {
                    m1
                };
                proof {
                    assert(m == min3(up as int, left as int, diag as int));
                    assert(edit_distance(a@.take(j as int + 1), b@.take(i as int + 1)) == 1 + min3(
                        edit_distance(a@.take(j as int), b@.take(i as int + 1)),
                        edit_distance(a@.take(j as int + 1), b@.take(i as int)),
                        edit_distance(a@.take(j as int), b@.take(i as int)),
                    ));
                    assert(min3(up as int, left as int, diag as int) == min3(
                        left as int,
                        up as int,
                        diag as int,
                    ));
                    assert(m <= diag);
                    assert(diag as int <= if a@.take(j as int).len() >= b@.take(
                        i as int,
                    ).len() {
                        a@.take(j as int).len() as int
                    } else {
                        b@.take(i as int).len() as int
                    });
                }
                m + 1
            };
            diag = up;
            left = new_val;
            cache.set(j, new_val);
            j = j + 1;
        }
        i = i + 1;
    }
    proof {
        assert(cache@[la as int - 1] == edit_distance(a@.take(la as int), b@.take(lb as int)));
    }
    cache[la - 1]
}

} // verus!
