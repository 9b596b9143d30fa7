//! Rendering values to text: decimal integers, hexadecimal byte
//! strings, and the plain rendering used when a pipeline is collected
//! into one string.

use vstd::prelude::*;

use crate::value::{ValModel, Value};

verus! {

broadcast use vstd::std_specs::vec::group_vec_axioms;

/// The character for one digit value below sixteen: `0`-`9`, then
/// `a`-`f`.
pub open spec fn digit_char(d: int) -> char {
    if d < 10 {
        ((d + 48) as u8) as char
    } else {
        ((d + 87) as u8) as char
    }
}

/// The decimal digits of an unsigned number, most significant first.
pub open spec fn dec_text(n: nat) -> Seq<char>
    decreases n,
{
    if n < 10 {
        seq![digit_char(n as int)]
    } else {
        dec_text(n / 10).push(digit_char((n % 10) as int))
    }
}

/// The decimal rendering of a signed number.
pub open spec fn int_text(n: int) -> Seq<char> {
    if n < 0 {
        seq!['-'] + dec_text((-n) as nat)
    } else {
        dec_text(n as nat)
    }
}

/// The lowercase hexadecimal rendering of a byte string, two digits a
/// byte.
pub open spec fn hex_text(s: Seq<u8>) -> Seq<char>
    decreases s.len(),
{
    if s.len() == 0 {
        Seq::empty()
    } else {
        hex_text(s.drop_last()).push(digit_char(s.last() as int / 16)).push(
            digit_char(s.last() as int % 16),
        )
    }
}

/// One digit as a string.
fn digit_str(d: u8) -> (r: String)
    requires
        d < 16,
    ensures
        r@ == seq![digit_char(d as int)],
{
    let r = match d {
        0 => String::from_str("0"),
        1 => String::from_str("1"),
        2 => String::from_str("2"),
        3 => String::from_str("3"),
        4 => String::from_str("4"),
        5 => String::from_str("5"),
        6 => String::from_str("6"),
        7 => String::from_str("7"),
        8 => String::from_str("8"),
        9 => String::from_str("9"),
        10 => String::from_str("a"),
        11 => String::from_str("b"),
        12 => String::from_str("c"),
        13 => String::from_str("d"),
        14 => String::from_str("e"),
        _ => String::from_str("f"),
    };
    proof {
        reveal_strlit("0");
        reveal_strlit("1");
        reveal_strlit("2");
        reveal_strlit("3");
        reveal_strlit("4");
        reveal_strlit("5");
        reveal_strlit("6");
        reveal_strlit("7");
        reveal_strlit("8");
        reveal_strlit("9");
        reveal_strlit("a");
        reveal_strlit("b");
        reveal_strlit("c");
        reveal_strlit("d");
        reveal_strlit("e");
        reveal_strlit("f");
        assert(r@ =~= seq![digit_char(d as int)]);
    }
    r
}

/// Renders an unsigned number in decimal.
pub fn u64_to_string(n: u64) -> (r: String)
    ensures
        r@ == dec_text(n as nat),
    decreases n,
{
    if n < 10 {
        digit_str(n as u8)
    } else {
        let head = u64_to_string(n / 10);
        let tail = digit_str((n % 10) as u8);
        let r = head.concat(tail.as_str());
        proof {
            assert(r@ =~= dec_text(n as nat));
        }
        r
    }
}

/// Renders a signed number in decimal.
pub fn i64_to_string(n: i64) -> (r: String)
    ensures
        r@ == int_text(n as int),
{
    if n >= 0 {
        u64_to_string(n as u64)
    } else {
        let mag: u64 = (-(n as i128)) as u64;
        let r = String::from_str("-").concat(u64_to_string(mag).as_str());
        proof {
            reveal_strlit("-");
            assert(r@ =~= int_text(n as int));
        }
        r
    }
}

/// Renders a byte string in lowercase hexadecimal.
pub fn bytes_to_hex(v: &Vec<u8>) -> (r: String)
    ensures
        r@ == hex_text(v@),
{
    let mut r = String::new();
    let mut i: usize = 0;
    while i < v.len()
        invariant
            0 <= i <= v@.len(),
            r@ == hex_text(v@.take(i as int)),
        decreases v@.len() - i,
    {
        let b = v[i];
        let hi = digit_str(b / 16);
        let lo = digit_str(b % 16);
        r.append(hi.as_str());
        r.append(lo.as_str());
        proof {
            assert(v@.take(i as int + 1).drop_last() =~= v@.take(i as int));
            assert(v@.take(i as int + 1).last() == v@[i as int]);
            assert(r@ =~= hex_text(v@.take(i as int + 1)));
        }
        i = i + 1;
    }
    proof {
        assert(v@.take(v@.len() as int) =~= v@);
    }
    r
}

/// The plain text rendering of a value: scalars render themselves,
/// lists bracket their comma-separated items, records brace their
/// `column: value` entries, binary data renders in hexadecimal, a range
/// shows its bounds, and the remaining variants answer a tag.
pub open spec fn text_of(m: ValModel) -> Seq<char>
    decreases m, 1int,
{
    match m {
        ValModel::Nothing { .. } => Seq::empty(),
        ValModel::Bool { val, .. } => if val {
            "true"@
        } else {
            "false"@
        },
        ValModel::Int { val, .. } => int_text(val as int),
        ValModel::String { val, .. } => val,
        ValModel::Binary { val, .. } => hex_text(val),
        ValModel::Record { cols, vals, .. } => "{"@ + entries_text(
            cols,
            vals,
            vals.len() as int,
        ) + "}"@,
        ValModel::List { vals, .. } => "["@ + items_text(vals, vals.len() as int) + "]"@,
        ValModel::Range { from, to, .. } => int_text(from as int) + ".."@ + int_text(to as int),
        ValModel::Error { .. } => "error"@,
        ValModel::Block { .. } => "block"@,
    }
}

/// The comma-separated renderings of the first `n` list items.
pub open spec fn items_text(vals: Seq<ValModel>, n: int) -> Seq<char>
    decreases vals, 0int, n,
{
    if n <= 0 || n > vals.len() {
        Seq::empty()
    } else if n == 1 {
        text_of(vals[0])
    } else {
        items_text(vals, n - 1) + ", "@ + text_of(vals[n - 1])
    }
}

/// The comma-separated `column: value` renderings of the first `n`
/// record entries.
pub open spec fn entries_text(cols: Seq<Seq<char>>, vals: Seq<ValModel>, n: int) -> Seq<char>
    decreases vals, 0int, n,
{
    if n <= 0 || n > vals.len() {
        Seq::empty()
    } else if n == 1 {
        entry_text(cols, vals, 0)
    } else {
        entries_text(cols, vals, n - 1) + ", "@ + entry_text(cols, vals, n - 1)
    }
}

/// One `column: value` entry.
pub open spec fn entry_text(cols: Seq<Seq<char>>, vals: Seq<ValModel>, t: int) -> Seq<char>
    decreases vals, 0int, t, 0int,
{
    if 0 <= t < vals.len() {
        (if 0 <= t < cols.len() {
            cols[t]
        } else {
            Seq::empty()
        }) + ": "@ + text_of(vals[t])
    } else {
        Seq::empty()
    }
}

/// The pieces of `s` between occurrences of `sep`, in order; `n`
/// occurrences yield `n + 1` pieces, and the empty text yields one
/// empty piece.
pub open spec fn split_char(s: Seq<char>, sep: char) -> Seq<Seq<char>>
    decreases s.len(),
{
    if s.len() == 0 {
        seq![Seq::<char>::empty()]
    } else if s.last() == sep {
        split_char(s.drop_last(), sep).push(Seq::empty())
    } else {
        let prior = split_char(s.drop_last(), sep);
        prior.update(prior.len() - 1, prior.last().push(s.last()))
    }
}

/// There is always at least one piece.
pub proof fn lemma_split_char_len(s: Seq<char>, sep: char)
    ensures
        split_char(s, sep).len() >= 1,
    decreases s.len(),
{
    if s.len() > 0 {
        lemma_split_char_len(s.drop_last(), sep);
    }
}

/// Splits a string on a separator character.
#[verifier::loop_isolation(false)]
pub fn split_string(s: &String, sep: char) -> (r: Vec<String>)
    ensures
        r.deep_view() == split_char(s@, sep),
{
    let strd = s.as_str();
    let n = strd.unicode_len();
    let mut r: Vec<String> = Vec::new();
    let mut seg_start: usize = 0;
    let mut i: usize = 0;
    proof {
        assert(s@.take(0) =~= Seq::<char>::empty());
        assert(s@.subrange(0, 0) =~= Seq::<char>::empty());
        assert(r.deep_view().push(s@.subrange(0, 0)) =~= split_char(s@.take(0), sep));
    }
    while i < n
        invariant
            n == s@.len(),
            0 <= seg_start <= i <= n,
            forall|k: int| seg_start <= k < i ==> s@[k] != sep,
            r.deep_view().push(s@.subrange(seg_start as int, i as int)) == split_char(
                s@.take(i as int),
                sep,
            ),
        decreases n - i,
    {
        let c = strd.get_char(i);
        proof {
            assert(s@.take(i as int + 1).drop_last() =~= s@.take(i as int));
            assert(s@.take(i as int + 1).last() == s@[i as int]);
            crate::text::lemma_split_char_len(s@.take(i as int), sep);
        }
        if c == sep {
            let piece = strd.substring_char(seg_start, i);
            r.push(String::from_str(piece));
            seg_start = i + 1;
            proof {
                assert(s@.subrange(i as int + 1, i as int + 1) =~= Seq::<char>::empty());
                assert(r.deep_view().push(s@.subrange(seg_start as int, i as int + 1)) =~=
                    split_char(s@.take(i as int + 1), sep));
            }
        } else {
            proof {
                assert(s@.subrange(seg_start as int, i as int + 1) =~= s@.subrange(
                    seg_start as int,
                    i as int,
                ).push(s@[i as int]));
                assert(r.deep_view().push(s@.subrange(seg_start as int, i as int + 1)) =~=
                    split_char(s@.take(i as int + 1), sep));
            }
        }
        i = i + 1;
    }
    let piece = strd.substring_char(seg_start, n);
    r.push(String::from_str(piece));
    proof {
        assert(s@.take(n as int) =~= s@);
        assert(r.deep_view() =~= split_char(s@, sep));
    }
    r
}

/// The blank characters trimming removes: space, tab, carriage return
/// and line feed.
pub open spec fn is_blank(c: char) -> bool {
    c == ' ' || c == '\t' || c == '\r' || c == '\n'
}

/// The text with leading and trailing blanks removed.
pub open spec fn trimmed(s: Seq<char>) -> Seq<char>
    decreases s.len(),
{
    if s.len() == 0 {
        s
    } else if is_blank(s[0]) {
        trimmed(s.skip(1))
    } else if is_blank(s.last()) {
        trimmed(s.drop_last())
    } else {
        s
    }
}

/// Trims leading and trailing blanks.
#[verifier::loop_isolation(false)]
pub fn trim_blanks(s: &String) -> (r: String)
    ensures
        r@ == trimmed(s@),
{
    let strd = s.as_str();
    let n = strd.unicode_len();
    let mut lo: usize = 0;
    proof {
        assert(s@.subrange(0, n as int) =~= s@);
    }
    while lo < n && is_blank_char(strd.get_char(lo))
        invariant
            n == s@.len(),
            0 <= lo <= n,
            trimmed(s@) == trimmed(s@.subrange(lo as int, n as int)),
        decreases n - lo,
    {
        proof {
            assert(s@.subrange(lo as int, n as int).skip(1) =~= s@.subrange(
                lo as int + 1,
                n as int,
            ));
            assert(s@.subrange(lo as int, n as int)[0] == s@[lo as int]);
        }
        lo = lo + 1;
    }
    let mut hi: usize = n;
    while hi > lo && is_blank_char(strd.get_char(hi - 1))
        invariant
            n == s@.len(),
            0 <= lo <= hi <= n,
            lo < n ==> !is_blank(s@[lo as int]),
            trimmed(s@) == trimmed(s@.subrange(lo as int, hi as int)),
        decreases hi,
    {
        proof {
            assert(s@.subrange(lo as int, hi as int).drop_last() =~= s@.subrange(
                lo as int,
                hi as int - 1,
            ));
            assert(s@.subrange(lo as int, hi as int).last() == s@[hi as int - 1]);
            if lo < hi - 1 {
                assert(s@.subrange(lo as int, hi as int)[0] == s@[lo as int]);
            }
        }
        hi = hi - 1;
    }
    let piece = strd.substring_char(lo, hi);
    proof {
        let sub = s@.subrange(lo as int, hi as int);
        if sub.len() > 0 {
            assert(sub[0] == s@[lo as int]);
            assert(sub.last() == s@[hi as int - 1]);
        }
        assert(trimmed(sub) == sub);
    }
    String::from_str(piece)
}

/// Relies on std's `String::push`: appends the one character.
#[verifier::external_body]
pub fn push_char(s: &mut String, c: char)
    ensures
        final(s)@ == old(s)@.push(c),
{
    s.push(c);
}

/// Whether one character is blank.
pub fn is_blank_char(c: char) -> (r: bool)
    ensures
        r == is_blank(c),
{
    c == ' ' || c == '\t' || c == '\r' || c == '\n'
}

/// The numeric value of a digit sequence, most significant first.
pub open spec fn digits_val(s: Seq<char>) -> int
    decreases s.len(),
{
    if s.len() == 0 {
        0
    } else {
        digits_val(s.drop_last()) * 10 + (s.last() as int - 48)
    }
}

/// Whether every character is a decimal digit.
pub open spec fn all_digits(s: Seq<char>) -> bool {
    forall|k: int| 0 <= k < s.len() ==> '0' <= #[trigger] s[k] <= '9'
}

/// What parsing signed decimal text yields: an optional sign, then at
/// least one digit, nothing else; the value is unbounded here, the
/// machine width is checked by the caller.
pub open spec fn int_of_text(s: Seq<char>) -> Option<int> {
    if s.len() >= 1 && (s[0] == '-' || s[0] == '+') {
        if s.len() >= 2 && all_digits(s.skip(1)) {
            if s[0] == '-' {
                Option::Some(-digits_val(s.skip(1)))
            } else {
                Option::Some(digits_val(s.skip(1)))
            }
        } else {
            Option::None
        }
    } else {
        if s.len() >= 1 && all_digits(s) {
            Option::Some(digits_val(s))
        } else {
            Option::None
        }
    }
}

/// Parses signed decimal text into a machine integer: the text's value
/// where it is syntactically an integer and fits the width, nothing
/// otherwise.
#[verifier::loop_isolation(false)]
pub fn parse_i64(s: &String) -> (r: Option<i64>)
    ensures
        (match r {
            Option::Some(v) => int_of_text(s@) == Option::Some(v as int),
            Option::None => (match int_of_text(s@) {
                Option::Some(w) => w < i64::MIN || w > i64::MAX,
                Option::None => true,
            }),
        }),
{
    let strd = s.as_str();
    let n = strd.unicode_len();
    if n == 0 {
        return Option::None;
    }
    let first = strd.get_char(0);
    let neg = first == '-';
    let signed = first == '-' || first == '+';
    let start: usize = if signed {
        1
    } else {
        0
    };
    if start >= n {
        return Option::None;
    }
    let ghost digits = if signed {
        s@.skip(1)
    } else {
        s@
    };
    let mut acc: i128 = 0;
    let mut i: usize = start;
    proof {
        assert(digits.take(0) =~= Seq::<char>::empty());
    }
    while i < n
        invariant
            n == s@.len(),
            start <= i <= n,
            start == if signed {
                1int
            } else {
                0int
            },
            digits == if signed {
                s@.skip(1)
            } else {
                s@
            },
            digits.len() == n - start,
            forall|k: int| 0 <= k < i - start ==> '0' <= #[trigger] digits[k] <= '9',
            acc == digits_val(digits.take(i - start)),
            0 <= acc <= 9223372036854775809,
        decreases n - i,
    {
        let c = strd.get_char(i);
        proof {
            assert(digits[i - start] == s@[i as int]);
        }
        if !('0' <= c && c <= '9') {
            proof {
                assert(!all_digits(digits));
            }
            return Option::None;
        }
        proof {
            assert(digits.take(i - start + 1).drop_last() =~= digits.take(i - start));
            assert(digits.take(i - start + 1).last() == digits[i - start]);
        }
        if acc > 922337203685477580 {
            proof {
                assert(digits_val(digits.take(i - start + 1)) > 9223372036854775808int)
                    by (nonlinear_arith)
                    requires
                        digits_val(digits.take(i - start + 1)) == acc * 10 + (digits[i - start]
                            as int - 48),
                        acc > 922337203685477580,
                        '0' <= digits[i - start] <= '9',
                ;
                if all_digits(digits) {
                    lemma_digits_prefix_le(digits, i - start + 1);
                }
            }
            return Option::None;
        }
        proof {
            assert(acc * 10 + ((c as u32) as i128 - 48) <= 9223372036854775809)
                by (nonlinear_arith)
                requires
                    0 <= acc <= 922337203685477580,
                    '0' <= c <= '9',
            ;
            assert(acc * 10 + ((c as u32) as i128 - 48) >= 0) by (nonlinear_arith)
                requires
                    acc >= 0,
                    '0' <= c <= '9',
            ;
        }
        acc = acc * 10 + ((c as u32) as i128 - 48);
        i = i + 1;
    }
    proof {
        assert(digits.take(n - start) =~= digits);
        assert(all_digits(digits));
    }
    if neg {
        if acc > 9223372036854775808 {
            return Option::None;
        }
        Option::Some((-acc) as i64)
    } else {
        if acc > 9223372036854775807 {
            return Option::None;
        }
        Option::Some(acc as i64)
    }
}

/// For digit text, a prefix's value never exceeds the whole value.
proof fn lemma_digits_prefix_le(s: Seq<char>, j: int)
    requires
        0 <= j <= s.len(),
        all_digits(s),
    ensures
        digits_val(s.take(j)) <= digits_val(s),
    decreases s.len() - j,
{
    lemma_digits_nonneg(s, j);
    if j < s.len() {
        assert(s.take(j + 1).drop_last() =~= s.take(j));
        assert(s.take(j + 1).last() == s[j]);
        assert(digits_val(s.take(j)) <= digits_val(s.take(j + 1))) by (nonlinear_arith)
            requires
                digits_val(s.take(j + 1)) == digits_val(s.take(j)) * 10 + (s[j] as int - 48),
                digits_val(s.take(j)) >= 0,
                '0' <= s[j] <= '9',
        ;
        lemma_digits_prefix_le(s, j + 1);
    } else {
        assert(s.take(j) =~= s);
    }
}

/// Digit text has a non-negative value.
proof fn lemma_digits_nonneg(s: Seq<char>, j: int)
    requires
        0 <= j <= s.len(),
        all_digits(s),
    ensures
        digits_val(s.take(j)) >= 0,
    decreases j,
{
    if j > 0 {
        lemma_digits_nonneg(s, j - 1);
        assert(s.take(j).drop_last() =~= s.take(j - 1));
        assert(s.take(j).last() == s[j - 1]);
        assert(digits_val(s.take(j)) >= 0) by (nonlinear_arith)
            requires
                digits_val(s.take(j)) == digits_val(s.take(j - 1)) * 10 + (s[j - 1] as int - 48),
                digits_val(s.take(j - 1)) >= 0,
                '0' <= s[j - 1] <= '9',
        ;
    } else {
        assert(s.take(0) =~= Seq::<char>::empty());
    }
}

impl Value {
    /// Renders this value as plain text.
    pub fn into_string(&self) -> (r: String)
        ensures
            r@ == text_of(self@),
        decreases *self,
    {
        match self {
            Value::Nothing { .. } => String::new(),
            Value::Bool { val, span: _ } => {
                if *val {
                    String::from_str("true")
                } else {
                    String::from_str("false")
                }
            },
            Value::Int { val, span: _ } => i64_to_string(*val),
            Value::String { val, span: _ } => val.clone(),
            Value::Binary { val, span: _ } => bytes_to_hex(val),
            Value::Record { cols, vals, span: _ } => {
                proof {
                    crate::value::lemma_vmodels(vals@);
                }
                let mut r = String::from_str("{");
                let ghost mcols = crate::value::strs_view(cols@);
                let ghost mvals = crate::value::vmodels(vals@);
                let mut t: usize = 0;
                while t < vals.len()
                    invariant
                        *self is Record,
                        cols == self->Record_cols,
                        vals == self->Record_vals,
                        mcols == crate::value::strs_view(cols@),
                        mvals == crate::value::vmodels(vals@),
                        mvals.len() == vals@.len(),
                        forall|x: int|
                            0 <= x < vals@.len() ==> #[trigger] mvals[x] == crate::value::vmodel(
                                vals@[x],
                            ),
                        0 <= t <= vals@.len(),
                        r@ == "{"@ + entries_text(mcols, mvals, t as int),
                    decreases vals@.len() - t,
                {
                    if t > 0 {
                        r.append(", ");
                        proof {
                            reveal_strlit(", ");
                        }
                    }
                    if t < cols.len() {
                        let cname: &String = &cols[t];
                        r.append(cname.as_str());
                    }
                    r.append(": ");
                    proof {
                        assert(decreases_to!(*self => self->Record_vals@[t as int]));
                        reveal_strlit(": ");
                    }
                    let child = vals[t].into_string();
                    r.append(child.as_str());
                    proof {
                        assert(child@ == text_of(mvals[t as int]));
                        if t < cols.len() {
                            assert(mcols[t as int] == cols@[t as int]@);
                        }
                        assert(entry_text(mcols, mvals, t as int) =~= (if 0 <= t < mcols.len() {
                            mcols[t as int]
                        } else {
                            Seq::empty()
                        }) + ": "@ + text_of(mvals[t as int]));
                        assert(r@ =~= "{"@ + entries_text(mcols, mvals, t as int + 1));
                    }
                    t = t + 1;
                }
                r.append("}");
                proof {
                    assert(r@ =~= text_of(self@));
                }
                r
            },
            Value::List { vals, span: _ } => {
                proof {
                    crate::value::lemma_vmodels(vals@);
                }
                let mut r = String::from_str("[");
                let ghost mvals = crate::value::vmodels(vals@);
                let mut t: usize = 0;
                while t < vals.len()
                    invariant
                        *self is List,
                        vals == self->List_vals,
                        mvals == crate::value::vmodels(vals@),
                        mvals.len() == vals@.len(),
                        forall|x: int|
                            0 <= x < vals@.len() ==> #[trigger] mvals[x] == crate::value::vmodel(
                                vals@[x],
                            ),
                        0 <= t <= vals@.len(),
                        r@ == "["@ + items_text(mvals, t as int),
                    decreases vals@.len() - t,
                {
                    if t > 0 {
                        r.append(", ");
                        proof {
                            reveal_strlit(", ");
                        }
                    }
                    proof {
                        assert(decreases_to!(*self => self->List_vals@[t as int]));
                    }
                    let child = vals[t].into_string();
                    r.append(child.as_str());
                    proof {
                        assert(r@ =~= "["@ + items_text(mvals, t as int + 1));
                    }
                    t = t + 1;
                }
                r.append("]");
                proof {
                    assert(r@ =~= text_of(self@));
                }
                r
            },
            Value::Range { from, to, .. } => {
                let mut r = i64_to_string(*from);
                r.append("..");
                let tos = i64_to_string(*to);
                r.append(tos.as_str());
                proof {
                    reveal_strlit("..");
                    assert(r@ =~= text_of(self@));
                }
                r
            },
            Value::Error { .. } => String::from_str("error"),
            Value::Block { .. } => String::from_str("block"),
        }
    }
}

} // verus!
