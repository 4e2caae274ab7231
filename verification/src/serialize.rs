use vstd::prelude::*;
use vstd::string::StringExecFns;

use crate::config::{
    abs_value, ident_end, is_term_char, lemma_abs_array, lemma_ident_end, lemma_parse_one_bounds,
    parse_all_s, parse_body_s, parse_one_s, push_char, spec_parse, step_to, view_list, ConfigValue,
    ManyRes, OneRes, ParseRes, SpecValue,
};

verus! {

/// A value as the parser shapes it.  An identifier is non-empty, starts
/// with no whitespace and no `(`, and holds no terminating character after
/// its first; inside a keyed form's body it cannot start with `)` either
/// (`top` is false there).  A keyed form's key holds no terminating
/// character, and its payload is a list of such values; a bare `Array` or
/// an `Empty` never stands in a list.
pub open spec fn wf_value(v: SpecValue, top: bool) -> bool
    decreases v,
    via wf_value_dec
{
    match v {
        SpecValue::Ident(s) => {
            &&& s.len() >= 1
            &&& s[0] != ' '
            &&& s[0] != '\t'
            &&& s[0] != '\r'
            &&& s[0] != '\n'
            &&& s[0] != '('
            &&& (top || s[0] != ')')
            &&& forall|i: int| 1 <= i < s.len() ==> !is_term_char(#[trigger] s[i])
        },
        SpecValue::Pair(k, b) => {
            &&& forall|i: int| 0 <= i < k.len() ==> !is_term_char(#[trigger] k[i])
            &&& (match *b {
                SpecValue::Array(vs) => wf_list(vs, false),
                _ => false,
            })
        },
        SpecValue::Array(_) => false,
        SpecValue::Empty => false,
    }
}

#[via_fn]
proof fn wf_value_dec(v: SpecValue, top: bool) {
    match v {
        SpecValue::Pair(k, b) => {
            match *b {
                SpecValue::Array(vs) => {
                    assert(decreases_to!(v => *b));
                    assert(decreases_to!(*b => vs));
                },
                _ => {},
            }
        },
        _ => {},
    }
}

/// The members of a keyed form's payload.
pub open spec fn body_of(v: SpecValue) -> Seq<SpecValue> {
    match v {
        SpecValue::Pair(k, b) => match *b {
            SpecValue::Array(vs) => vs,
            _ => Seq::empty(),
        },
        _ => Seq::empty(),
    }
}

pub open spec fn wf_list(vs: Seq<SpecValue>, top: bool) -> bool
    decreases vs,
{
    if vs.len() == 0 {
        true
    } else {
        wf_value(vs[0], top) && wf_list(vs.drop_first(), top)
    }
}

/// A value in a body is also fine at the top level.
pub proof fn lemma_wf_weaken(v: SpecValue)
    requires
        wf_value(v, false),
    ensures
        wf_value(v, true),
{
}

pub proof fn lemma_wf_list_cons(v: SpecValue, vs: Seq<SpecValue>, top: bool)
    ensures
        wf_list(seq![v] + vs, top) == (wf_value(v, top) && wf_list(vs, top)),
{
    let c = seq![v] + vs;
    assert(c[0] == v);
    assert(c.drop_first() =~= vs);
}

/// The textual notation of one value.
pub open spec fn ser_value(v: SpecValue) -> Seq<char>
    decreases v,
    via ser_value_dec
{
    match v {
        SpecValue::Ident(s) => s,
        SpecValue::Pair(k, b) => match *b {
            SpecValue::Array(vs) => seq!['('] + k + ser_body(vs) + seq![')'],
            _ => seq!['('] + k + seq![')'],
        },
        SpecValue::Array(_) => Seq::empty(),
        SpecValue::Empty => Seq::empty(),
    }
}

#[via_fn]
proof fn ser_value_dec(v: SpecValue) {
    match v {
        SpecValue::Pair(k, b) => {
            match *b {
                SpecValue::Array(vs) => {
                    assert(decreases_to!(v => *b));
                    assert(decreases_to!(*b => vs));
                },
                _ => {},
            }
        },
        _ => {},
    }
}

/// The members of a body, each preceded by one space.
pub open spec fn ser_body(vs: Seq<SpecValue>) -> Seq<char>
    decreases vs,
{
    if vs.len() == 0 {
        Seq::empty()
    } else {
        seq![' '] + ser_value(vs[0]) + ser_body(vs.drop_first())
    }
}

/// A whole document: the first form, then the rest each preceded by one
/// space.
pub open spec fn ser_top(vs: Seq<SpecValue>) -> Seq<char> {
    if vs.len() == 0 {
        Seq::empty()
    } else {
        ser_value(vs[0]) + ser_body(vs.drop_first())
    }
}

proof fn lemma_ident_end_exact(input: Seq<char>, pos: int, m: int)
    requires
        0 <= pos,
        0 <= m,
        pos + m <= input.len(),
        forall|i: int| pos <= i < pos + m ==> !is_term_char(#[trigger] input[i]),
        pos + m == input.len() || is_term_char(input[pos + m]),
    ensures
        ident_end(input, pos) == pos + m,
    decreases m,
{
    if m > 0 {
        lemma_ident_end_exact(input, pos + 1, m - 1);
    }
}

proof fn lemma_parse_ser_value(input: Seq<char>, pos: int, line: int, v: SpecValue)
    requires
        wf_value(v, true),
        0 <= pos,
        pos + ser_value(v).len() <= input.len(),
        input.subrange(pos, pos + ser_value(v).len() as int) == ser_value(v),
        pos + ser_value(v).len() == input.len() || input[pos + ser_value(v).len() as int] == ' '
            || input[pos + ser_value(v).len() as int] == ')',
    ensures
        parse_one_s(input, pos, line) == OneRes::Good(v, pos + ser_value(v).len(), line),
    decreases v,
{
    let sv = ser_value(v);
    let n = sv.len() as int;
    assert(forall|i: int| 0 <= i < n ==> input[pos + i] == #[trigger] sv[i]);
    match v {
        SpecValue::Ident(s) => {
            assert(input[pos] == s[0]);
            assert forall|i: int| pos + 1 <= i < pos + n implies !is_term_char(input[i]) by {
                assert(input[i] == sv[i - pos]);
                assert(!is_term_char(s[i - pos]));
            }
            lemma_ident_end_exact(input, pos + 1, n - 1);
            assert(ident_end(input, pos + 1) == pos + n);
            assert(step_to(input, pos, pos + n) == pos + n);
            assert(input.subrange(pos, pos + n) =~= s);
        },
        SpecValue::Pair(k, b) => {
            let vs = body_of(v);
            let kn = k.len() as int;
            let bn = ser_body(vs).len() as int;
            assert(n == 1 + kn + bn + 1);
            assert(input[pos] == sv[0]);
            assert(sv[0] == '(');
            assert forall|i: int| 0 <= i < kn implies input[pos + 1 + i] == #[trigger] k[i] by {
                assert(sv[1 + i] == k[i]);
            }
            assert forall|i: int| 0 <= i < bn implies input[pos + 1 + kn + i] == #[trigger] ser_body(
                vs,
            )[i] by {
                assert(sv[1 + kn + i] == ser_body(vs)[i]);
            }
            assert(input[pos + 1 + kn + bn] == sv[n - 1]);
            assert(sv[n - 1] == ')');
            assert forall|i: int| pos + 1 <= i < pos + 1 + kn implies !is_term_char(input[i]) by {
                assert(input[i] == k[i - pos - 1]);
                assert(!is_term_char(k[i - pos - 1]));
            }
            if bn > 0 {
                assert(input[pos + 1 + kn] == ser_body(vs)[0]);
                assert(ser_body(vs)[0] == ' ');
            } else {
                assert(input[pos + 1 + kn] == ')');
            }
            assert(is_term_char(input[pos + 1 + kn]));
            lemma_ident_end_exact(input, pos + 1, kn);
            let ke = pos + 1 + kn;
            assert(ident_end(input, pos + 1) == ke);
            assert(step_to(input, pos, ke) == ke);
            assert(input.subrange(ke, ke + bn) =~= ser_body(vs));
            assert(decreases_to!(v => *b));
            assert(decreases_to!(*b => vs));
            lemma_parse_ser_body(input, ke, line, vs);
            assert(parse_body_s(input, ke, line) == ManyRes::Good(vs, ke + bn, line));
            assert(input.subrange(pos + 1, ke) =~= k);
            assert(*b == SpecValue::Array(vs));
            assert(parse_one_s(input, pos, line) == OneRes::Good(
                SpecValue::Pair(k, Box::new(SpecValue::Array(vs))),
                pos + n,
                line,
            ));
            assert(SpecValue::Pair(k, Box::new(SpecValue::Array(vs))) == v);
        },
        SpecValue::Array(_) => {
            assert(false);
        },
        SpecValue::Empty => {
            assert(false);
        },
    }
}

proof fn lemma_parse_ser_body(input: Seq<char>, pos: int, line: int, vs: Seq<SpecValue>)
    requires
        wf_list(vs, false),
        0 <= pos,
        pos + ser_body(vs).len() < input.len(),
        input.subrange(pos, pos + ser_body(vs).len() as int) == ser_body(vs),
        input[pos + ser_body(vs).len() as int] == ')',
    ensures
        parse_body_s(input, pos, line) == ManyRes::Good(vs, pos + ser_body(vs).len(), line),
    decreases vs,
{
    let sb = ser_body(vs);
    let n = sb.len() as int;
    assert(forall|i: int| 0 <= i < n ==> input[pos + i] == #[trigger] sb[i]);
    if vs.len() == 0 {
        assert(input[pos] == ')');
        assert(vs =~= Seq::<SpecValue>::empty());
    } else {
        let v0 = vs[0];
        assert(wf_value(v0, false));
        assert(wf_list(vs.drop_first(), false));
        let rest = vs.drop_first();
        let m = ser_value(v0).len() as int;
        let bn = ser_body(rest).len() as int;
        assert(n == 1 + m + bn);
        assert(input[pos] == sb[0]);
        assert(sb[0] == ' ');
        assert forall|i: int| 0 <= i < m implies input[pos + 1 + i] == #[trigger] ser_value(v0)[i] by {
            assert(input[pos + 1 + i] == sb[1 + i]);
            assert(sb[1 + i] == ser_value(v0)[i]);
        }
        assert(input.subrange(pos + 1, pos + 1 + m) =~= ser_value(v0));
        // what follows the first member: another member's space, or the `)`
        if rest.len() == 0 {
            assert(pos + 1 + m == pos + n);
            assert(input[pos + 1 + m] == ')');
        } else {
            assert(input[pos + 1 + m] == sb[1 + m]);
            assert(ser_body(rest)[0] == ' ');
            assert(sb[1 + m] == ser_body(rest)[0]);
        }
        lemma_wf_weaken(v0);
        assert(decreases_to!(vs => v0));
        lemma_parse_ser_value(input, pos + 1, line, v0);
        // the parser at `pos` skips the space and reads the first member
        assert(parse_one_s(input, pos, line) == OneRes::Good(SpecValue::Empty, pos + 1, line));
        assert(step_to(input, pos, pos + 1) == pos + 1);
        // the first member starts with no `)`, so the body does not stop there
        match v0 {
            SpecValue::Ident(s) => {
                assert(input[pos + 1] == ser_value(v0)[0]);
                assert(ser_value(v0)[0] == s[0]);
                assert(input[pos + 1] != ')');
            },
            SpecValue::Pair(_, _) => {
                assert(input[pos + 1] == ser_value(v0)[0]);
                assert(ser_value(v0)[0] == '(');
            },
            _ => {
                assert(false);
            },
        }
        let p2 = pos + 1 + m;
        assert(step_to(input, pos + 1, p2) == p2);
        assert forall|i: int| 0 <= i < bn implies input.subrange(p2, p2 + bn)[i] == ser_body(
            rest,
        )[i] by {
            assert(input[p2 + i] == sb[1 + m + i]);
            assert(sb[1 + m + i] == ser_body(rest)[i]);
        }
        assert(input.subrange(p2, p2 + bn) =~= ser_body(rest));
        lemma_parse_ser_body(input, p2, line, rest);
        assert(parse_body_s(input, p2, line) == ManyRes::Good(rest, p2 + bn, line));
        assert(parse_body_s(input, pos + 1, line) == ManyRes::Good(
            seq![v0] + rest,
            p2 + bn,
            line,
        ));
        assert(seq![v0] + rest =~= vs);
        assert(parse_body_s(input, pos, line) == ManyRes::Good(vs, pos + n, line));
    }
}

proof fn lemma_parse_ser_tail(input: Seq<char>, pos: int, line: int, vs: Seq<SpecValue>)
    requires
        wf_list(vs, true),
        0 <= pos,
        pos + ser_body(vs).len() == input.len(),
        input.subrange(pos, pos + ser_body(vs).len() as int) == ser_body(vs),
    ensures
        parse_all_s(input, pos, line) == ParseRes::Good(vs),
    decreases vs.len(),
{
    let sb = ser_body(vs);
    let n = sb.len() as int;
    assert(forall|i: int| 0 <= i < n ==> input[pos + i] == #[trigger] sb[i]);
    if vs.len() == 0 {
        assert(pos >= input.len());
        assert(vs =~= Seq::<SpecValue>::empty());
    } else {
        let v0 = vs[0];
        assert(wf_value(v0, true));
        assert(wf_list(vs.drop_first(), true));
        let rest = vs.drop_first();
        let m = ser_value(v0).len() as int;
        let bn = ser_body(rest).len() as int;
        assert(n == 1 + m + bn);
        assert(input[pos] == sb[0]);
        assert(sb[0] == ' ');
        assert forall|i: int| 0 <= i < m implies input[pos + 1 + i] == #[trigger] ser_value(v0)[i] by {
            assert(input[pos + 1 + i] == sb[1 + i]);
            assert(sb[1 + i] == ser_value(v0)[i]);
        }
        assert(input.subrange(pos + 1, pos + 1 + m) =~= ser_value(v0));
        if rest.len() == 0 {
            assert(pos + 1 + m == input.len());
        } else {
            assert(input[pos + 1 + m] == sb[1 + m]);
            assert(ser_body(rest)[0] == ' ');
            assert(sb[1 + m] == ser_body(rest)[0]);
        }
        lemma_parse_ser_value(input, pos + 1, line, v0);
        assert(parse_one_s(input, pos, line) == OneRes::Good(SpecValue::Empty, pos + 1, line));
        assert(step_to(input, pos, pos + 1) == pos + 1);
        let p2 = pos + 1 + m;
        assert(step_to(input, pos + 1, p2) == p2);
        assert forall|i: int| 0 <= i < bn implies input.subrange(p2, p2 + bn)[i] == ser_body(
            rest,
        )[i] by {
            assert(input[p2 + i] == sb[1 + m + i]);
            assert(sb[1 + m + i] == ser_body(rest)[i]);
        }
        assert(input.subrange(p2, p2 + bn) =~= ser_body(rest));
        lemma_parse_ser_tail(input, p2, line, rest);
        match v0 {
            SpecValue::Ident(s) => {
                assert(v0 !is Empty);
            },
            SpecValue::Pair(_, _) => {},
            _ => {
                assert(false);
            },
        }
        assert(parse_all_s(input, pos + 1, line) == ParseRes::Good(seq![v0] + rest));
        assert(seq![v0] + rest =~= vs);
        assert(parse_all_s(input, pos, line) == ParseRes::Good(vs));
    }
}

/// Serialized well-formed values parse back to exactly themselves.
pub proof fn lemma_parse_ser_top(vs: Seq<SpecValue>)
    requires
        wf_list(vs, true),
    ensures
        spec_parse(ser_top(vs)) == ParseRes::Good(vs),
{
    let input = ser_top(vs);
    if vs.len() == 0 {
        assert(vs =~= Seq::<SpecValue>::empty());
    } else {
        let v0 = vs[0];
        assert(wf_value(v0, true));
        assert(wf_list(vs.drop_first(), true));
        let rest = vs.drop_first();
        let m = ser_value(v0).len() as int;
        let bn = ser_body(rest).len() as int;
        assert(input =~= ser_value(v0) + ser_body(rest));
        assert forall|i: int| 0 <= i < m implies input.subrange(0, m)[i] == ser_value(v0)[i] by {
            assert(input[i] == ser_value(v0)[i]);
        }
        assert(input.subrange(0, m) =~= ser_value(v0));
        if rest.len() == 0 {
            assert(m == input.len());
        } else {
            assert(input[m] == ser_body(rest)[0]);
            assert(ser_body(rest)[0] == ' ');
        }
        lemma_parse_ser_value(input, 0, 1, v0);
        assert forall|i: int| 0 <= i < bn implies input.subrange(m, m + bn)[i] == ser_body(
            rest,
        )[i] by {
            assert(input[m + i] == ser_body(rest)[i]);
        }
        assert(input.subrange(m, m + bn) =~= ser_body(rest));
        lemma_parse_ser_tail(input, m, 1, rest);
        assert(step_to(input, 0, m) == m);
        match v0 {
            SpecValue::Ident(s) => {
                assert(v0 !is Empty);
            },
            SpecValue::Pair(_, _) => {},
            _ => {
                assert(false);
            },
        }
        assert(seq![v0] + rest =~= vs);
    }
}

proof fn lemma_parse_wf_one(input: Seq<char>, pos: int, line: int)
    requires
        0 <= pos < input.len(),
        1 <= line <= usize::MAX as int,
    ensures
        match parse_one_s(input, pos, line) {
            OneRes::Good(v, p2, l2) => (v is Empty || wf_value(v, true)) && (input[pos] != ')'
                ==> (v is Empty || wf_value(v, false))),
            OneRes::Fail(_) => true,
        },
    decreases input.len() - pos, 0int,
{
    let c = input[pos];
    if c == ' ' || c == '\t' || c == '\r' || c == '\n' {
    } else if c == '(' {
        lemma_ident_end(input, pos + 1);
        let ke = ident_end(input, pos + 1);
        assert(step_to(input, pos, ke) == ke);
        lemma_parse_wf_body(input, ke, line);
        match parse_body_s(input, ke, line) {
            ManyRes::Good(vs, p3, l3) => {
                let k = input.subrange(pos + 1, ke);
                assert forall|i: int| 0 <= i < k.len() implies !is_term_char(#[trigger] k[i]) by {
                    assert(k[i] == input[pos + 1 + i]);
                }
                assert(wf_value(SpecValue::Pair(k, Box::new(SpecValue::Array(vs))), true));
                assert(wf_value(SpecValue::Pair(k, Box::new(SpecValue::Array(vs))), false));
            },
            ManyRes::Fail(_) => {},
        }
    } else {
        lemma_ident_end(input, pos + 1);
        let e = ident_end(input, pos + 1);
        assert(step_to(input, pos, e) == e);
        let s = input.subrange(pos, e);
        assert(s[0] == c);
        assert forall|i: int| 1 <= i < s.len() implies !is_term_char(#[trigger] s[i]) by {
            assert(s[i] == input[pos + i]);
        }
        assert(wf_value(SpecValue::Ident(s), true));
        if c != ')' {
            assert(wf_value(SpecValue::Ident(s), false));
        }
    }
}

proof fn lemma_parse_wf_body(input: Seq<char>, pos: int, line: int)
    requires
        0 <= pos,
        1 <= line <= usize::MAX as int,
    ensures
        match parse_body_s(input, pos, line) {
            ManyRes::Good(vs, p3, l3) => wf_list(vs, false),
            ManyRes::Fail(_) => true,
        },
    decreases input.len() - pos, 1int,
{
    if pos < input.len() && input[pos] != ')' {
        lemma_parse_one_bounds(input, pos, line);
        lemma_parse_wf_one(input, pos, line);
        match parse_one_s(input, pos, line) {
            OneRes::Good(v, p2, l2) => {
                assert(step_to(input, pos, p2) == p2);
                lemma_parse_wf_body(input, p2, l2);
                match parse_body_s(input, p2, l2) {
                    ManyRes::Good(vs, p3, l3) => {
                        if v is Empty {
                        } else {
                            lemma_wf_list_cons(v, vs, false);
                        }
                    },
                    ManyRes::Fail(_) => {},
                }
            },
            OneRes::Fail(_) => {},
        }
    }
}

proof fn lemma_parse_wf_all(input: Seq<char>, pos: int, line: int)
    requires
        0 <= pos,
        1 <= line <= usize::MAX as int,
    ensures
        match parse_all_s(input, pos, line) {
            ParseRes::Good(vs) => wf_list(vs, true),
            ParseRes::Fail(_) => true,
        },
    decreases input.len() - pos,
{
    if pos < input.len() {
        lemma_parse_one_bounds(input, pos, line);
        lemma_parse_wf_one(input, pos, line);
        match parse_one_s(input, pos, line) {
            OneRes::Good(v, p2, l2) => {
                assert(step_to(input, pos, p2) == p2);
                lemma_parse_wf_all(input, p2, l2);
                match parse_all_s(input, p2, l2) {
                    ParseRes::Good(vs) => {
                        if v is Empty {
                        } else {
                            lemma_wf_list_cons(v, vs, true);
                        }
                    },
                    ParseRes::Fail(_) => {},
                }
            },
            OneRes::Fail(_) => {},
        }
    }
}

/// Round-trip: any value list the parser produced from some text, once
/// re-serialized to the notation and re-parsed, is produced again exactly.
pub proof fn lemma_round_trip(text: Seq<char>, vs: Seq<SpecValue>)
    requires
        spec_parse(text) == ParseRes::Good(vs),
    ensures
        spec_parse(ser_top(vs)) == ParseRes::Good(vs),
{
    lemma_parse_wf_all(text, 0, 1);
    lemma_parse_ser_top(vs);
}

/// Writes the notation of one node at the end of `out`.
#[verifier::loop_isolation(false)]
fn write_value(v: &ConfigValue, out: &mut String)
    ensures
        final(out)@ == old(out)@ + ser_value(abs_value(*v)),
    decreases v,
{
    match v {
        ConfigValue::Ident(s) => {
            out.append(s.as_str());
        },
        ConfigValue::Array(_) => {
            proof {
                assert(out@ + ser_value(abs_value(*v)) =~= out@);
            }
        },
        ConfigValue::Empty => {
            proof {
                assert(out@ + ser_value(abs_value(*v)) =~= out@);
            }
        },
        ConfigValue::Pair(k, b) => {
            let ghost out0 = out@;
            push_char(out, '(');
            out.append(k.as_str());
            let ghost base = out0 + seq!['('] + k@;
            proof {
                assert(out@ =~= base);
            }
            match &**b {
                ConfigValue::Array(vs) => {
                    proof {
                        lemma_abs_array(*vs);
                    }
                    let ghost lst = view_list(vs@);
                    let mut i: usize = 0;
                    proof {
                        assert(lst.skip(0) =~= lst);
                    }
                    while i < vs.len()
                        invariant
                            i <= vs@.len(),
                            out@ + ser_body(lst.skip(i as int)) =~= base + ser_body(lst),
                        decreases vs@.len() - i,
                    {
                        let ghost outb = out@;
                        push_char(out, ' ');
                        proof {
                            let vv = *v;
                            match vv {
                                ConfigValue::Pair(k2, b2) => {
                                    assert(decreases_to!(vv => b2));
                                    match *b2 {
                                        ConfigValue::Array(vs2) => {
                                            assert(vs2 == *vs);
                                            assert(decreases_to!(*b2 => vs2));
                                            assert(decreases_to!(vs2 => vs2@));
                                            assert(decreases_to!(vs2@ => vs2@[i as int]));
                                        },
                                        _ => {
                                            assert(false);
                                        },
                                    }
                                },
                                _ => {
                                    assert(false);
                                },
                            }
                        }
                        write_value(&vs[i], out);
                        proof {
                            assert(lst.skip(i as int).drop_first() =~= lst.skip(i + 1));
                            assert(lst.skip(i as int)[0] == abs_value(vs@[i as int]));
                            assert(ser_body(lst.skip(i as int)) =~= seq![' '] + ser_value(
                                abs_value(vs@[i as int]),
                            ) + ser_body(lst.skip(i + 1)));
                            assert(out@ =~= outb + seq![' '] + ser_value(abs_value(vs@[i as int])));
                            assert(out@ + ser_body(lst.skip(i + 1)) =~= outb + ser_body(
                                lst.skip(i as int),
                            ));
                        }
                        i = i + 1;
                    }
                    proof {
                        assert(lst.skip(vs@.len() as int) =~= Seq::<SpecValue>::empty());
                    }
                    push_char(out, ')');
                    proof {
                        assert(abs_value(*v) == SpecValue::Pair(
                            k@,
                            Box::new(SpecValue::Array(lst)),
                        ));
                        assert(out@ =~= out0 + ser_value(abs_value(*v)));
                    }
                },
                other => {
                    push_char(out, ')');
                    proof {
                        crate::config::lemma_abs_not_array(*other);
                        assert(out@ =~= out0 + ser_value(abs_value(*v)));
                    }
                },
            }
        },
    }
}

/// The whole notation of a list of top-level nodes.
#[verifier::loop_isolation(false)]
pub fn to_text(values: &Vec<ConfigValue>) -> (r: String)
    ensures
        r@ == ser_top(view_list(values@)),
{
    let mut out = String::new();
    let ghost lst = view_list(values@);
    if values.len() == 0 {
        proof {
            assert(out@ =~= ser_top(lst));
        }
        return out;
    }
    write_value(&values[0], &mut out);
    proof {
        assert(lst.drop_first() =~= lst.skip(1));
        assert(Seq::<char>::empty() + ser_value(abs_value(values@[0])) =~= ser_value(lst[0]));
        assert(out@ + ser_body(lst.skip(1)) =~= ser_top(lst));
    }
    let mut i: usize = 1;
    while i < values.len()
        invariant
            1 <= i <= values@.len(),
            out@ + ser_body(lst.skip(i as int)) =~= ser_top(lst),
        decreases values@.len() - i,
    {
        let ghost outb = out@;
        push_char(&mut out, ' ');
        write_value(&values[i], &mut out);
        proof {
            assert(lst.skip(i as int).drop_first() =~= lst.skip(i + 1));
            assert(lst.skip(i as int)[0] == abs_value(values@[i as int]));
            assert(ser_body(lst.skip(i as int)) =~= seq![' '] + ser_value(
                abs_value(values@[i as int]),
            ) + ser_body(lst.skip(i + 1)));
            assert(out@ =~= outb + seq![' '] + ser_value(abs_value(values@[i as int])));
            assert(out@ + ser_body(lst.skip(i + 1)) =~= outb + ser_body(lst.skip(i as int)));
        }
        i = i + 1;
    }
    proof {
        assert(lst.skip(values@.len() as int) =~= Seq::<SpecValue>::empty());
        assert(out@ + Seq::<char>::empty() =~= out@);
        assert(out@ =~= ser_top(lst));
    }
    out
}

} // verus!
