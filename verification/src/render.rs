use vstd::prelude::*;
use vstd::string::StringExecFns;
use crate::model::KindV;
use crate::model::TyV;
use crate::model::lemma_kind_seq_view;
use crate::model::lemma_ty_seq_view;
use crate::model::ty_seq_view;
use crate::model::ty_view;
use crate::kind::Kind;
use crate::typ::Type;

verus! {

broadcast use lemma_ty_seq_view, lemma_kind_seq_view;

/// The character of a decimal digit value.
pub open spec fn digit_char(d: nat) -> char {
    if d == 0 {
        '0'
    } else if d == 1 {
        '1'
    } else if d == 2 {
        '2'
    } else if d == 3 {
        '3'
    } else if d == 4 {
        '4'
    } else if d == 5 {
        '5'
    } else if d == 6 {
        '6'
    } else if d == 7 {
        '7'
    } else if d == 8 {
        '8'
    } else {
        '9'
    }
}

/// Decimal rendering of a natural number, most significant digit first.
pub open spec fn dec_u(n: nat) -> Seq<char>
    decreases n,
{
    if n < 10 {
        seq![digit_char(n)]
    } else {
        dec_u(n / 10).push(digit_char(n % 10))
    }
}

/// Decimal rendering of an integer, with a leading minus sign when
/// negative.
pub open spec fn dec_i(n: int) -> Seq<char> {
    if n < 0 {
        seq!['-'] + dec_u((-n) as nat)
    } else {
        dec_u(n as nat)
    }
}

/// The one-character string of a decimal digit.
fn digit_str(d: u64) -> (r: &'static str)
    requires
        d < 10,
    ensures
        r@ == seq![digit_char(d as nat)],
{
    proof {
        reveal_strlit("0");
        reveal_strlit("1");
        reveal_strlit("2");
        reveal_strlit("3");
        reveal_strlit("4");
        reveal_strlit("5");
        reveal_strlit("6");
        reveal_strlit("7");
        reveal_strlit("8");
        reveal_strlit("9");
        assert(("0")@ =~= seq!['0']);
        assert(("1")@ =~= seq!['1']);
        assert(("2")@ =~= seq!['2']);
        assert(("3")@ =~= seq!['3']);
        assert(("4")@ =~= seq!['4']);
        assert(("5")@ =~= seq!['5']);
        assert(("6")@ =~= seq!['6']);
        assert(("7")@ =~= seq!['7']);
        assert(("8")@ =~= seq!['8']);
        assert(("9")@ =~= seq!['9']);
    }
    match d {
        0 => "0",
        1 => "1",
        2 => "2",
        3 => "3",
        4 => "4",
        5 => "5",
        6 => "6",
        7 => "7",
        8 => "8",
        _ => "9",
    }
}

/// Renders a natural number in decimal.
pub fn u64_to_string(n: u64) -> (r: String)
    ensures
        r@ == dec_u(n as nat),
    decreases n,
{
    if n < 10 {
        String::from_str(digit_str(n))
    } else {
        let mut s = u64_to_string(n / 10);
        s.append(digit_str(n % 10));
        s
    }
}

/// Renders a signed integer in decimal.
pub fn i64_to_string(n: i64) -> (r: String)
    ensures
        r@ == dec_i(n as int),
{
    if n >= 0 {
        u64_to_string(n as u64)
    } else {
        let mag: u64 = if n == i64::MIN {
            9223372036854775808
        } else {
            (-n) as u64
        };
        proof {
            assert(mag as nat == (-(n as int)) as nat);
        }
        let mut s = String::new();
        proof {
            reveal_strlit("-");
            assert(("-")@ =~= seq!['-']);
        }
        s.append("-");
        let rest = u64_to_string(mag);
        s.append(rest.as_str());
        proof {
            assert(s@ =~= seq!['-'] + dec_u((-(n as int)) as nat));
        }
        s
    }
}

/// Renders an index in decimal.
pub fn usize_to_string(n: usize) -> (r: String)
    ensures
        r@ == dec_u(n as nat),
{
    u64_to_string(n as u64)
}

/// Printed form of a kind: `Nil` by name, a capability family with its
/// parameters in angle brackets, a conjunction joined by plus signs.
pub open spec fn render_kind(k: KindV) -> Seq<char>
    decreases k,
{
    match k {
        KindV::Nil => seq!['N', 'i', 'l'],
        KindV::Named(n, ps) => {
            if ps.len() == 0 {
                n
            } else {
                n + seq!['<'] + render_kind_list(ps) + seq!['>']
            }
        },
        KindV::And(ks) => render_kind_and(ks),
    }
}

/// Kind parameters joined by commas.
pub open spec fn render_kind_list(ks: Seq<KindV>) -> Seq<char>
    decreases ks,
{
    if ks.len() == 0 {
        Seq::empty()
    } else if ks.len() == 1 {
        render_kind(ks.last())
    } else {
        render_kind_list(ks.drop_last()) + seq![','] + render_kind(ks.last())
    }
}

/// Conjunction members joined by plus signs.
pub open spec fn render_kind_and(ks: Seq<KindV>) -> Seq<char>
    decreases ks,
{
    if ks.len() == 0 {
        Seq::empty()
    } else if ks.len() == 1 {
        render_kind(ks.last())
    } else {
        render_kind_and(ks.drop_last()) + seq![' ', '+', ' '] + render_kind(ks.last())
    }
}

/// Printed form of a type, with the kind table's assignment appended
/// after a double colon where one exists.
pub open spec fn render_ty(t: TyV, km: Map<TyV, KindV>) -> Seq<char>
    decreases t,
{
    let base = match t {
        TyV::Any => seq!['?'],
        TyV::Named(n, ts) => {
            if ts.len() == 0 {
                n
            } else {
                n + seq!['<'] + render_ty_list(ts, km, seq![',']) + seq!['>']
            }
        },
        TyV::And(ts) => seq!['{'] + render_ty_list(ts, km, seq!['+']) + seq!['}'],
        TyV::Tuple(ts) => seq!['('] + render_ty_list(ts, km, seq![',']) + seq![')'],
        TyV::Product(ts) => seq!['('] + render_ty_list(ts, km, seq!['*']) + seq![')'],
        TyV::Arrow(p, b) => seq!['('] + render_ty(*p, km) + seq![')', '=', '>', '('] + render_ty(
            *b,
            km,
        ) + seq![')'],
        TyV::Ratio(n, d) => seq!['('] + render_ty(*n, km) + seq![')', '/', '('] + render_ty(
            *d,
            km,
        ) + seq![')'],
        TyV::Constant(v, c) => {
            let mark: Seq<char> = if v {
                seq!['\'']
            } else {
                Seq::empty()
            };
            seq!['['] + mark + seq!['v', 'a', 'r', '#'] + dec_i(c) + seq![']']
        },
    };
    if km.contains_key(t) {
        base + seq![':', ':'] + render_kind(km[t])
    } else {
        base
    }
}

/// Type members joined by the given separator.
pub open spec fn render_ty_list(ts: Seq<TyV>, km: Map<TyV, KindV>, sep: Seq<char>) -> Seq<char>
    decreases ts,
{
    if ts.len() == 0 {
        Seq::empty()
    } else if ts.len() == 1 {
        render_ty(ts.last(), km)
    } else {
        render_ty_list(ts.drop_last(), km, sep) + sep + render_ty(ts.last(), km)
    }
}

/// Renders a kind for display.
pub fn print_kind(k: &Kind) -> (r: String)
    ensures
        r@ == render_kind(k@),
    decreases k,
{
    match k {
        Kind::Nil => {
            proof {
                reveal_strlit("Nil");
                assert(("Nil")@ =~= seq!['N', 'i', 'l']);
            }
            String::from_str("Nil")
        },
        Kind::Named(n, ps) => {
            proof {
                assert(k@ == KindV::Named(n@, crate::model::kind_seq_view(ps@)));
            }
            if ps.len() == 0 {
                n.clone()
            } else {
                let mut s = n.clone();
                proof {
                    reveal_strlit("<");
                    reveal_strlit(">");
                    assert(("<")@ =~= seq!['<']);
                    assert((">")@ =~= seq!['>']);
                }
                s.append("<");
                let inner = print_kind_list(ps);
                s.append(inner.as_str());
                s.append(">");
                proof {
                    assert(s@ =~= n@ + seq!['<'] + render_kind_list(
                        crate::model::kind_seq_view(ps@),
                    ) + seq!['>']);
                }
                s
            }
        },
        Kind::And(ks) => {
            proof {
                assert(k@ == KindV::And(crate::model::kind_seq_view(ks@)));
            }
            print_kind_and(ks)
        },
    }
}

/// Renders kind parameters joined by commas.
fn print_kind_list(ks: &Vec<Kind>) -> (r: String)
    ensures
        r@ == render_kind_list(crate::model::kind_seq_view(ks@)),
    decreases ks,
{
    let ghost kv = crate::model::kind_seq_view(ks@);
    let mut s = String::new();
    let n = ks.len();
    let mut i: usize = 0;
    proof {
        assert(s@ =~= render_kind_list(kv.take(0)));
    }
    while i < n
        invariant
            0 <= i <= n,
            n == ks@.len(),
            kv == crate::model::kind_seq_view(ks@),
            s@ == render_kind_list(kv.take(i as int)),
        decreases n - i,
    {
        if i > 0 {
            proof {
                reveal_strlit(",");
                assert((",")@ =~= seq![',']);
            }
            s.append(",");
        }
        let piece = print_kind(&ks[i]);
        s.append(piece.as_str());
        proof {
            let pre = kv.take(i as int);
            let now = kv.take(i + 1);
            assert(now.drop_last() =~= pre);
            assert(now.last() == kv[i as int]);
            if i == 0 {
                assert(s@ =~= render_kind_list(now));
            } else {
                assert(s@ =~= render_kind_list(pre) + seq![','] + render_kind(kv[i as int]));
            }
        }
        i += 1;
    }
    proof {
        assert(kv.take(n as int) =~= kv);
    }
    s
}

/// Renders conjunction members joined by plus signs.
fn print_kind_and(ks: &Vec<Kind>) -> (r: String)
    ensures
        r@ == render_kind_and(crate::model::kind_seq_view(ks@)),
    decreases ks,
{
    let ghost kv = crate::model::kind_seq_view(ks@);
    let mut s = String::new();
    let n = ks.len();
    let mut i: usize = 0;
    proof {
        assert(s@ =~= render_kind_and(kv.take(0)));
    }
    while i < n
        invariant
            0 <= i <= n,
            n == ks@.len(),
            kv == crate::model::kind_seq_view(ks@),
            s@ == render_kind_and(kv.take(i as int)),
        decreases n - i,
    {
        if i > 0 {
            proof {
                reveal_strlit(" + ");
                assert((" + ")@ =~= seq![' ', '+', ' ']);
            }
            s.append(" + ");
        }
        let piece = print_kind(&ks[i]);
        s.append(piece.as_str());
        proof {
            let pre = kv.take(i as int);
            let now = kv.take(i + 1);
            assert(now.drop_last() =~= pre);
            assert(now.last() == kv[i as int]);
            if i == 0 {
                assert(s@ =~= render_kind_and(now));
            } else {
                assert(s@ =~= render_kind_and(pre) + seq![' ', '+', ' '] + render_kind(
                    kv[i as int],
                ));
            }
        }
        i += 1;
    }
    proof {
        assert(kv.take(n as int) =~= kv);
    }
    s
}

impl Type {
    /// Renders the type for display, appending the kind table's
    /// assignment after a double colon where one exists.
    pub fn print(&self, kinds: &crate::maps::KindMap) -> (r: String)
        ensures
            r@ == render_ty(self@, kinds@),
        decreases self,
    {
        let base: String = match self {
            Type::Any => {
                proof {
                    reveal_strlit("?");
                    assert(("?")@ =~= seq!['?']);
                }
                String::from_str("?")
            },
            Type::Named(tn, ts) => {
                proof {
                    assert(self@ == TyV::Named(tn@, ty_seq_view(ts@)));
                }
                if ts.len() == 0 {
                    tn.clone()
                } else {
                    let mut s = tn.clone();
                    proof {
                        reveal_strlit("<");
                        reveal_strlit(">");
                        reveal_strlit(",");
                        assert(("<")@ =~= seq!['<']);
                        assert((">")@ =~= seq!['>']);
                        assert((",")@ =~= seq![',']);
                    }
                    s.append("<");
                    let inner = print_ty_list(ts, kinds, ",");
                    s.append(inner.as_str());
                    s.append(">");
                    proof {
                        assert(s@ =~= tn@ + seq!['<'] + render_ty_list(
                            ty_seq_view(ts@),
                            kinds@,
                            seq![','],
                        ) + seq!['>']);
                    }
                    s
                }
            },
            Type::And(ts) => {
                proof {
                    assert(self@ == TyV::And(ty_seq_view(ts@)));
                    reveal_strlit("{");
                    reveal_strlit("}");
                    reveal_strlit("+");
                    assert(("{")@ =~= seq!['{']);
                    assert(("}")@ =~= seq!['}']);
                    assert(("+")@ =~= seq!['+']);
                }
                let mut s = String::new();
                s.append("{");
                let inner = print_ty_list(ts, kinds, "+");
                s.append(inner.as_str());
                s.append("}");
                proof {
                    assert(s@ =~= seq!['{'] + render_ty_list(ty_seq_view(ts@), kinds@, seq!['+'])
                        + seq!['}']);
                }
                s
            },
            Type::Tuple(ts) => {
                proof {
                    assert(self@ == TyV::Tuple(ty_seq_view(ts@)));
                    reveal_strlit("(");
                    reveal_strlit(")");
                    reveal_strlit(",");
                    assert(("(")@ =~= seq!['(']);
                    assert((")")@ =~= seq![')']);
                    assert((",")@ =~= seq![',']);
                }
                let mut s = String::new();
                s.append("(");
                let inner = print_ty_list(ts, kinds, ",");
                s.append(inner.as_str());
                s.append(")");
                proof {
                    assert(s@ =~= seq!['('] + render_ty_list(ty_seq_view(ts@), kinds@, seq![','])
                        + seq![')']);
                }
                s
            },
            Type::Product(ts) => {
                proof {
                    assert(self@ == TyV::Product(ty_seq_view(ts@)));
                    reveal_strlit("(");
                    reveal_strlit(")");
                    reveal_strlit("*");
                    assert(("(")@ =~= seq!['(']);
                    assert((")")@ =~= seq![')']);
                    assert(("*")@ =~= seq!['*']);
                }
                let mut s = String::new();
                s.append("(");
                let inner = print_ty_list(ts, kinds, "*");
                s.append(inner.as_str());
                s.append(")");
                proof {
                    assert(s@ =~= seq!['('] + render_ty_list(ty_seq_view(ts@), kinds@, seq!['*'])
                        + seq![')']);
                }
                s
            },
            Type::Arrow(p, b) => {
                proof {
                    assert(self@ == TyV::Arrow(Box::new(ty_view(**p)), Box::new(ty_view(**b))));
                    reveal_strlit("(");
                    reveal_strlit(")=>(");
                    reveal_strlit(")");
                    assert(("(")@ =~= seq!['(']);
                    assert((")=>(")@ =~= seq![')', '=', '>', '(']);
                    assert((")")@ =~= seq![')']);
                }
                let mut s = String::new();
                s.append("(");
                let pp = p.print(kinds);
                s.append(pp.as_str());
                s.append(")=>(");
                let bb = b.print(kinds);
                s.append(bb.as_str());
                s.append(")");
                proof {
                    assert(s@ =~= seq!['('] + render_ty(ty_view(**p), kinds@) + seq![')', '=', '>', '(']
                        + render_ty(ty_view(**b), kinds@) + seq![')']);
                }
                s
            },
            Type::Ratio(p, b) => {
                proof {
                    assert(self@ == TyV::Ratio(Box::new(ty_view(**p)), Box::new(ty_view(**b))));
                    reveal_strlit("(");
                    reveal_strlit(")/(");
                    reveal_strlit(")");
                    assert(("(")@ =~= seq!['(']);
                    assert((")/(")@ =~= seq![')', '/', '(']);
                    assert((")")@ =~= seq![')']);
                }
                let mut s = String::new();
                s.append("(");
                let pp = p.print(kinds);
                s.append(pp.as_str());
                s.append(")/(");
                let bb = b.print(kinds);
                s.append(bb.as_str());
                s.append(")");
                proof {
                    assert(s@ =~= seq!['('] + render_ty(ty_view(**p), kinds@) + seq![')', '/', '(']
                        + render_ty(ty_view(**b), kinds@) + seq![')']);
                }
                s
            },
            Type::Constant(v, c) => {
                proof {
                    reveal_strlit("[");
                    reveal_strlit("'");
                    reveal_strlit("var#");
                    reveal_strlit("]");
                    assert(("[")@ =~= seq!['[']);
                    assert(("'")@ =~= seq!['\'']);
                    assert(("var#")@ =~= seq!['v', 'a', 'r', '#']);
                    assert(("]")@ =~= seq![']']);
                }
                let mut s = String::new();
                s.append("[");
                if *v {
                    s.append("'");
                }
                s.append("var#");
                let id = usize_to_string(c.id);
                s.append(id.as_str());
                s.append("]");
                proof {
                    let mark: Seq<char> = if *v {
                        seq!['\'']
                    } else {
                        Seq::empty()
                    };
                    assert(dec_i(c.id as int) == dec_u(c.id as nat));
                    assert(s@ =~= seq!['['] + mark + seq!['v', 'a', 'r', '#'] + dec_i(c.id as int)
                        + seq![']']);
                }
                s
            },
        };
        if let Some(k) = kinds.get(self) {
            let mut s = base;
            proof {
                reveal_strlit("::");
                assert(("::")@ =~= seq![':', ':']);
            }
            s.append("::");
            let ks = print_kind(k);
            s.append(ks.as_str());
            s
        } else {
            base
        }
    }
}

/// Renders type members joined by a one-character separator.
fn print_ty_list(ts: &Vec<Type>, kinds: &crate::maps::KindMap, sep: &str) -> (r: String)
    requires
        sep@.len() == 1,
    ensures
        r@ == render_ty_list(ty_seq_view(ts@), kinds@, sep@),
    decreases ts,
{
    let ghost tv = ty_seq_view(ts@);
    let mut s = String::new();
    let n = ts.len();
    let mut i: usize = 0;
    proof {
        assert(s@ =~= render_ty_list(tv.take(0), kinds@, sep@));
    }
    while i < n
        invariant
            0 <= i <= n,
            n == ts@.len(),
            sep@.len() == 1,
            tv == ty_seq_view(ts@),
            s@ == render_ty_list(tv.take(i as int), kinds@, sep@),
        decreases n - i,
    {
        if i > 0 {
            s.append(sep);
        }
        let piece = ts[i].print(kinds);
        s.append(piece.as_str());
        proof {
            let pre = tv.take(i as int);
            let now = tv.take(i + 1);
            assert(now.drop_last() =~= pre);
            assert(now.last() == tv[i as int]);
            if i == 0 {
                assert(s@ =~= render_ty_list(now, kinds@, sep@));
            } else {
                assert(s@ =~= render_ty_list(pre, kinds@, sep@) + sep@ + render_ty(
                    tv[i as int],
                    kinds@,
                ));
            }
        }
        i += 1;
    }
    proof {
        assert(tv.take(n as int) =~= tv);
    }
    s
}

} // verus!
