use vstd::prelude::*;
use vstd::string::StrSliceExecFns;
use crate::model::ConstV;
use crate::model::const_seq_view;
use crate::model::const_view;
use crate::model::lemma_const_seq_view;
use crate::render::dec_i;
use crate::render::dec_u;
use crate::render::digit_char;
use crate::tlc::TLC;

verus! {

broadcast use lemma_const_seq_view;

/// A closed-form value produced by reduction: not-a-number, a boolean,
/// a 64-bit signed integer, an opaque operator token, or a tuple of
/// constants.
#[derive(Debug)]
pub enum Constant {
    NaN,
    Boolean(bool),
    Integer(i64),
    Op(String),
    Tuple(Vec<Constant>),
}

/// Whether a character is a decimal digit.
pub open spec fn is_digit(c: char) -> bool {
    '0' <= c && c <= '9'
}

/// The value of a decimal digit character.
pub open spec fn digit_val(c: char) -> int {
    c as int - '0' as int
}

/// The value of a digit string, most significant digit first.
pub open spec fn digits_val(s: Seq<char>) -> int
    decreases s.len(),
{
    if s.len() == 0 {
        0
    } else {
        digits_val(s.drop_last()) * 10 + digit_val(s.last())
    }
}

/// Whether every character of a sequence is a decimal digit.
pub open spec fn all_digits(s: Seq<char>) -> bool {
    forall|i: int| 0 <= i < s.len() ==> is_digit(#[trigger] s[i])
}

/// The integer a piece of text denotes: an optional sign followed by at
/// least one digit; `None` when the text is not of that shape.
pub open spec fn int_text(s: Seq<char>) -> Option<int> {
    let signed = s.len() >= 1 && (s[0] == '+' || s[0] == '-');
    let body = if signed {
        s.drop_first()
    } else {
        s
    };
    if body.len() == 0 || !all_digits(body) {
        None
    } else if signed && s[0] == '-' {
        Some(-digits_val(body))
    } else {
        Some(digits_val(body))
    }
}

/// Model of [`Constant::parse`]: the literal keywords, then integer
/// text within the 64-bit signed range, and any other text as an opaque
/// operator token.
pub open spec fn parse_const_v(s: Seq<char>) -> ConstV {
    if s == seq!['N', 'a', 'N'] {
        ConstV::Nan
    } else if s == seq!['T', 'r', 'u', 'e'] {
        ConstV::Boolean(true)
    } else if s == seq!['F', 'a', 'l', 's', 'e'] {
        ConstV::Boolean(false)
    } else {
        match int_text(s) {
            Some(v) => {
                if i64::MIN <= v <= i64::MAX {
                    ConstV::Integer(v as i64)
                } else {
                    ConstV::Op(s)
                }
            },
            None => ConstV::Op(s),
        }
    }
}

/// Model of [`Constant::print`]: the canonical literal spelling of a
/// constant.
pub open spec fn render_const(c: ConstV) -> Seq<char>
    decreases c,
{
    match c {
        ConstV::Nan => seq!['N', 'a', 'N'],
        ConstV::Boolean(b) => if b {
            seq!['T', 'r', 'u', 'e']
        } else {
            seq!['F', 'a', 'l', 's', 'e']
        },
        ConstV::Integer(i) => dec_i(i as int),
        ConstV::Op(op) => op,
        ConstV::Tuple(ts) => seq!['('] + render_const_list(ts) + seq![')'],
    }
}

/// Tuple members joined by commas.
pub open spec fn render_const_list(ts: Seq<ConstV>) -> Seq<char>
    decreases ts,
{
    if ts.len() == 0 {
        Seq::empty()
    } else if ts.len() == 1 {
        render_const(ts.last())
    } else {
        render_const_list(ts.drop_last()) + seq![','] + render_const(ts.last())
    }
}

/// Checks two strings for equality of their character sequences.
pub fn str_eq(a: &str, b: &str) -> (r: bool)
    ensures
        r == (a@ == b@),
{
    proof {
        crate::order::lemma_cmp_chars_eq(a@, b@);
    }
    crate::order::cmp_str(a, b) == 0
}

/// Checks two constants for structural equality.
pub fn eq_const(a: &Constant, b: &Constant) -> (r: bool)
    ensures
        r == (a@ == b@),
    decreases a,
{
    match (a, b) {
        (Constant::NaN, Constant::NaN) => true,
        (Constant::Boolean(x), Constant::Boolean(y)) => x == y,
        (Constant::Integer(x), Constant::Integer(y)) => x == y,
        (Constant::Op(x), Constant::Op(y)) => {
            proof {
                assert(a@ == ConstV::Op(x@));
                assert(b@ == ConstV::Op(y@));
            }
            str_eq(x.as_str(), y.as_str())
        },
        (Constant::Tuple(xs), Constant::Tuple(ys)) => {
            proof {
                assert(a@ == ConstV::Tuple(const_seq_view(xs@)));
                assert(b@ == ConstV::Tuple(const_seq_view(ys@)));
            }
            eq_const_list(xs, ys)
        },
        _ => false,
    }
}

/// Checks two lists of constants for element-wise structural equality.
fn eq_const_list(xs: &Vec<Constant>, ys: &Vec<Constant>) -> (r: bool)
    ensures
        r == (const_seq_view(xs@) == const_seq_view(ys@)),
    decreases xs,
{
    if xs.len() != ys.len() {
        return false;
    }
    let n = xs.len();
    let mut i: usize = 0;
    while i < n
        invariant
            0 <= i <= n,
            n == xs@.len(),
            n == ys@.len(),
            forall|j: int|
                0 <= j < i ==> const_seq_view(xs@)[j] == #[trigger] const_seq_view(ys@)[j],
        decreases n - i,
    {
        if !eq_const(&xs[i], &ys[i]) {
            proof {
                assert(const_seq_view(xs@)[i as int] != const_seq_view(ys@)[i as int]);
            }
            return false;
        }
        i += 1;
    }
    proof {
        assert(const_seq_view(xs@) =~= const_seq_view(ys@));
    }
    true
}

impl Clone for Constant {
    /// Deep copy preserving the model of the constant.
    fn clone(&self) -> (res: Self)
        ensures
            res@ == self@,
        decreases self,
    {
        match self {
            Constant::NaN => Constant::NaN,
            Constant::Boolean(b) => Constant::Boolean(*b),
            Constant::Integer(i) => Constant::Integer(*i),
            Constant::Op(s) => Constant::Op(s.clone()),
            Constant::Tuple(ts) => {
                let r = Constant::Tuple(clone_constants(ts));
                proof {
                    assert(r@ == ConstV::Tuple(const_seq_view(ts@)));
                    assert(self@ == ConstV::Tuple(const_seq_view(ts@)));
                }
                r
            },
        }
    }
}

/// Deep copy of a list of constants, preserving each model.
fn clone_constants(ts: &Vec<Constant>) -> (r: Vec<Constant>)
    ensures
        const_seq_view(r@) == const_seq_view(ts@),
    decreases ts,
{
    let mut out: Vec<Constant> = Vec::new();
    let n = ts.len();
    let mut i: usize = 0;
    while i < n
        invariant
            0 <= i <= n,
            n == ts@.len(),
            const_seq_view(out@) =~= const_seq_view(ts@).take(i as int),
        decreases n - i,
    {
        let ghost pre = const_seq_view(ts@).take(i as int);
        let ghost cur = const_view(ts@[i as int]);
        let e = ts[i].clone();
        out.push(e);
        proof {
            assert(const_seq_view(out@) =~= pre.push(cur));
            assert(pre.push(cur) =~= const_seq_view(ts@).take(i + 1));
        }
        i += 1;
    }
    proof {
        assert(const_seq_view(ts@).take(n as int) =~= const_seq_view(ts@));
    }
    out
}

impl PartialEq for Constant {
    /// Structural equality of constants.
    fn eq(&self, other: &Constant) -> (r: bool) {
        eq_const(self, other)
    }
}

impl vstd::std_specs::cmp::PartialEqSpecImpl for Constant {
    open spec fn obeys_eq_spec() -> bool {
        true
    }

    open spec fn eq_spec(&self, other: &Constant) -> bool {
        self@ == other@
    }
}

impl Constant {
    /// Parses literal text: the keywords spell not-a-number and the two
    /// booleans, integer-shaped text within the signed 64-bit range is
    /// an integer, and anything else is an opaque operator token.
    pub fn parse(_tlc: &TLC, v: &str) -> (r: Option<Constant>)
        ensures
            r matches Some(c) && c@ == parse_const_v(v@),
    {
        proof {
            reveal_strlit("NaN");
            reveal_strlit("True");
            reveal_strlit("False");
            assert(("NaN")@ =~= seq!['N', 'a', 'N']);
            assert(("True")@ =~= seq!['T', 'r', 'u', 'e']);
            assert(("False")@ =~= seq!['F', 'a', 'l', 's', 'e']);
        }
        if str_eq(v, "NaN") {
            Some(Constant::NaN)
        } else if str_eq(v, "True") {
            Some(Constant::Boolean(true))
        } else if str_eq(v, "False") {
            Some(Constant::Boolean(false))
        } else if let Some(n) = parse_i64(v) {
            Some(Constant::Integer(n))
        } else {
            Some(Constant::Op(String::from_str(v)))
        }
    }

    /// Renders the constant in its canonical literal spelling: the same
    /// text [`Constant::parse`] reads back for every non-tuple,
    /// non-operator constant.
    pub fn print(&self) -> (r: String)
        ensures
            r@ == render_const(self@),
        decreases self,
    {
        match self {
            Constant::NaN => {
                proof {
                    reveal_strlit("NaN");
                    assert(("NaN")@ =~= seq!['N', 'a', 'N']);
                }
                String::from_str("NaN")
            },
            Constant::Boolean(b) => {
                proof {
                    reveal_strlit("True");
                    reveal_strlit("False");
                    assert(("True")@ =~= seq!['T', 'r', 'u', 'e']);
                    assert(("False")@ =~= seq!['F', 'a', 'l', 's', 'e']);
                }
                if *b {
                    String::from_str("True")
                } else {
                    String::from_str("False")
                }
            },
            Constant::Integer(i) => crate::render::i64_to_string(*i),
            Constant::Op(op) => op.clone(),
            Constant::Tuple(ts) => {
                proof {
                    assert(self@ == ConstV::Tuple(const_seq_view(ts@)));
                    reveal_strlit("(");
                    reveal_strlit(")");
                    reveal_strlit(",");
                    assert(("(")@ =~= seq!['(']);
                    assert((")")@ =~= seq![')']);
                    assert((",")@ =~= seq![',']);
                }
                let mut s = String::new();
                s.append("(");
                let inner = print_const_list(ts);
                s.append(inner.as_str());
                s.append(")");
                proof {
                    assert(s@ =~= seq!['('] + render_const_list(const_seq_view(ts@)) + seq![')']);
                }
                s
            },
        }
    }
}

/// Renders tuple members joined by commas.
fn print_const_list(ts: &Vec<Constant>) -> (r: String)
    ensures
        r@ == render_const_list(const_seq_view(ts@)),
    decreases ts,
{
    let ghost cv = const_seq_view(ts@);
    let mut s = String::new();
    let n = ts.len();
    let mut i: usize = 0;
    proof {
        assert(s@ =~= render_const_list(cv.take(0)));
    }
    while i < n
        invariant
            0 <= i <= n,
            n == ts@.len(),
            cv == const_seq_view(ts@),
            s@ == render_const_list(cv.take(i as int)),
        decreases n - i,
    {
        if i > 0 {
            proof {
                reveal_strlit(",");
                assert((",")@ =~= seq![',']);
            }
            s.append(",");
        }
        let piece = ts[i].print();
        s.append(piece.as_str());
        proof {
            let pre = cv.take(i as int);
            let now = cv.take(i + 1);
            assert(now.drop_last() =~= pre);
            assert(now.last() == cv[i as int]);
            if i == 0 {
                assert(s@ =~= render_const_list(now));
            } else {
                assert(s@ =~= render_const_list(pre) + seq![','] + render_const(cv[i as int]));
            }
        }
        i += 1;
    }
    proof {
        assert(cv.take(n as int) =~= cv);
    }
    s
}

/// The value of a growing digit prefix never shrinks as digits are
/// appended.
proof fn lemma_digits_grow(s: Seq<char>, i: int)
    requires
        all_digits(s),
        0 <= i <= s.len(),
    ensures
        digits_val(s) >= digits_val(s.take(i)),
        digits_val(s.take(i)) >= 0,
    decreases s.len() - i,
{
    if i == s.len() {
        assert(s.take(i) =~= s);
        lemma_digits_nonneg(s);
    } else {
        lemma_digits_grow(s, i + 1);
        let p = s.take(i + 1);
        assert(p.drop_last() =~= s.take(i));
        assert(is_digit(s[i]));
        assert(p.last() == s[i]);
        lemma_digits_nonneg(s.take(i));
    }
}

/// A digit string's value is nonnegative.
proof fn lemma_digits_nonneg(s: Seq<char>)
    requires
        all_digits(s),
    ensures
        digits_val(s) >= 0,
    decreases s.len(),
{
    if s.len() > 0 {
        assert(forall|i: int| 0 <= i < s.len() - 1 ==> s.drop_last()[i] == s[i]);
        lemma_digits_nonneg(s.drop_last());
        assert(is_digit(s[s.len() - 1]));
        assert(s.last() == s[s.len() - 1]);
    }
}

/// Parses text as a 64-bit signed integer, with the same accepted shape
/// as [`int_text`] restricted to the representable range.
fn parse_i64(v: &str) -> (r: Option<i64>)
    ensures
        match r {
            Some(n) => int_text(v@) == Some(n as int),
            None => match int_text(v@) {
                Some(m) => m < i64::MIN || m > i64::MAX,
                None => true,
            },
        },
{
    let n = v.unicode_len();
    if n == 0 {
        return None;
    }
    let first = v.get_char(0);
    let neg = first == '-';
    let signed = first == '-' || first == '+';
    let start: usize = if signed {
        1
    } else {
        0
    };
    if n == start {
        proof {
            assert(v@.drop_first().len() == 0);
        }
        return None;
    }
    let ghost body = if signed {
        v@.drop_first()
    } else {
        v@
    };
    proof {
        assert(body.len() == n - start);
        assert(forall|j: int| 0 <= j < body.len() ==> body[j] == v@[j + start]);
    }
    let limit: u64 = if neg {
        9223372036854775808
    } else {
        9223372036854775807
    };
    let mut mag: u64 = 0;
    let mut i: usize = start;
    while i < n
        invariant
            start <= i <= n,
            n == v@.len(),
            start == 0 || start == 1,
            start == 1 ==> signed,
            n >= 1,
            neg == (v@[0] == '-'),
            signed == (v@[0] == '-' || v@[0] == '+'),
            signed == (start == 1),
            body == (if signed {
                v@.drop_first()
            } else {
                v@
            }),
            body.len() == n - start,
            forall|j: int| 0 <= j < body.len() ==> body[j] == v@[j + start],
            all_digits(body.take(i - start)),
            mag as int == digits_val(body.take(i - start)),
            mag <= limit,
            limit == (if neg {
                9223372036854775808u64
            } else {
                9223372036854775807u64
            }),
        decreases n - i,
    {
        let c = v.get_char(i);
        if c < '0' || c > '9' {
            proof {
                assert(body[i - start] == v@[i as int]);
                assert(!is_digit(body[i - start]));
                assert(!all_digits(body));
            }
            return None;
        }
        let d: u64 = (c as u32 - 48) as u64;
        proof {
            assert(is_digit(c));
            assert(d as int == digit_val(c)) by {
                assert('0' as int == 48);
            }
            assert(0 <= d <= 9);
        }
        if mag > (limit - d) / 10 {
            proof {
                let p = body.take(i - start + 1);
                assert(p.drop_last() =~= body.take(i - start));
                assert(p.last() == body[i - start]);
                assert(body[i - start] == c);
                assert(digits_val(p) == mag as int * 10 + d);
                assert(digits_val(p) > limit as int);
                if all_digits(body) {
                    lemma_digits_grow(body, i - start + 1);
                    assert(digits_val(body) > limit as int);
                    match int_text(v@) {
                        Some(m) => {
                            if neg {
                                assert(m == -digits_val(body));
                                assert(m < i64::MIN);
                            } else {
                                assert(m == digits_val(body));
                                assert(m > i64::MAX);
                            }
                        },
                        None => {},
                    }
                }
            }
            return None;
        }
        proof {
            let p = body.take(i - start + 1);
            assert(p.drop_last() =~= body.take(i - start));
            assert(p.last() == body[i - start]);
            assert(body[i - start] == c);
            assert(all_digits(p)) by {
                assert(forall|j: int| 0 <= j < p.len() - 1 ==> p[j] == body.take(i - start)[j]);
            }
        }
        mag = mag * 10 + d;
        i += 1;
    }
    proof {
        assert(body.take(n - start) =~= body);
        assert(all_digits(body));
        assert(mag as int == digits_val(body));
    }
    if neg {
        if mag == 9223372036854775808 {
            proof {
                assert(int_text(v@) == Some(-(mag as int)));
            }
            Some(i64::MIN)
        } else {
            proof {
                assert(int_text(v@) == Some(-(mag as int)));
            }
            Some(-(mag as i64))
        }
    } else {
        proof {
            assert(int_text(v@) == Some(mag as int));
        }
        Some(mag as i64)
    }
}

} // verus!
