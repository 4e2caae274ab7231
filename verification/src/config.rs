use vstd::prelude::*;
use vstd::string::StrSliceExecFns;
use vstd::string::StringExecFns;

use crate::errors::Error;

verus! {

/// One node of the parsed value tree.
///
/// `Pair` is a keyed form `(key body...)`; its payload is always an `Array`
/// when produced by the parser.  `Empty` stands for a whitespace-only parse
/// result and is never retained in any output list.
#[derive(Debug, PartialEq, Eq)]
pub enum ConfigValue {
    Ident(String),
    Array(Vec<ConfigValue>),
    Pair(String, Box<ConfigValue>),
    Empty,
}

/// The mathematical shape of a value-tree node: the same four variants over
/// sequences of characters.
pub enum SpecValue {
    Ident(Seq<char>),
    Array(Seq<SpecValue>),
    Pair(Seq<char>, Box<SpecValue>),
    Empty,
}

/// The mathematical value of a node.
pub open spec fn abs_value(v: ConfigValue) -> SpecValue
    decreases v,
    via abs_value_dec
{
    match v {
        ConfigValue::Ident(s) => SpecValue::Ident(s@),
        ConfigValue::Array(vs) => SpecValue::Array(
            Seq::new(
                vs@.len(),
                |i: int|
                    if 0 <= i < vs@.len() {
                        abs_value(vs@[i])
                    } else {
                        SpecValue::Empty
                    },
            ),
        ),
        ConfigValue::Pair(k, b) => SpecValue::Pair(k@, Box::new(abs_value(*b))),
        ConfigValue::Empty => SpecValue::Empty,
    }
}

#[via_fn]
proof fn abs_value_dec(v: ConfigValue) {
    match v {
        ConfigValue::Array(vs) => {
            assert forall|i: int| 0 <= i < vs@.len() implies decreases_to!(v => vs@[i]) by {
                assert(decreases_to!(v => vs));
                assert(decreases_to!(vs => vs@));
                assert(decreases_to!(vs@ => vs@[i]));
            }
        },
        _ => {},
    }
}

impl View for ConfigValue {
    type V = SpecValue;

    open spec fn view(&self) -> SpecValue {
        abs_value(*self)
    }
}

/// The views of the members of a list of nodes, in order.
pub open spec fn view_list(vs: Seq<ConfigValue>) -> Seq<SpecValue> {
    Seq::new(vs.len(), |i: int| vs[i]@)
}

/// The next cursor position: `e` where the parser's own bookkeeping puts it
/// (always past `pos` and inside the input), clamped so that progress is
/// plain to see.
pub open spec fn step_to(input: Seq<char>, pos: int, e: int) -> int {
    if pos + 1 <= e <= input.len() {
        e
    } else {
        pos + 1
    }
}

/// The characters that end an identifier (and, but for `)`, are skipped
/// between forms).
pub open spec fn is_term_char(c: char) -> bool {
    c == '\n' || c == '\r' || c == ' ' || c == '\t' || c == ')'
}

/// The position of the first terminating character at or after `pos`,
/// or the end of the input if there is none.
pub open spec fn ident_end(input: Seq<char>, pos: int) -> int
    decreases input.len() - pos,
{
    if pos < 0 || pos >= input.len() {
        input.len() as int
    } else if is_term_char(input[pos]) {
        pos
    } else {
        ident_end(input, pos + 1)
    }
}

pub proof fn lemma_ident_end(input: Seq<char>, pos: int)
    requires
        0 <= pos <= input.len(),
    ensures
        pos <= ident_end(input, pos) <= input.len(),
        forall|i: int| pos <= i < ident_end(input, pos) ==> !is_term_char(#[trigger] input[i]),
        ident_end(input, pos) < input.len() ==> is_term_char(input[ident_end(input, pos)]),
    decreases input.len() - pos,
{
    if pos < input.len() && !is_term_char(input[pos]) {
        lemma_ident_end(input, pos + 1);
    }
}

/// The line counter after a newline: one more, stopping at the largest
/// machine value so that the executable counter cannot overflow.
pub open spec fn bump_line(line: int) -> int {
    if line < usize::MAX as int {
        line + 1
    } else {
        line
    }
}

/// Outcome of reading one form: the node read, the next position and line,
/// or the line of a syntax error.
pub enum OneRes {
    Good(SpecValue, int, int),
    Fail(int),
}

/// Outcome of reading the body of a keyed form, up to (not through) `)`.
pub enum ManyRes {
    Good(Seq<SpecValue>, int, int),
    Fail(int),
}

/// Outcome of reading a whole document.
pub enum ParseRes {
    Good(Seq<SpecValue>),
    Fail(int),
}

/// One step of the parser: skip one whitespace character, read one bare
/// identifier, or read one parenthesized keyed form.
pub open spec fn parse_one_s(input: Seq<char>, pos: int, line: int) -> OneRes
    decreases input.len() - pos, 0int,
{
    if pos < 0 || pos >= input.len() {
        OneRes::Good(SpecValue::Empty, pos + 1, line)
    } else {
        let c = input[pos];
        if c == ' ' || c == '\t' || c == '\r' {
            OneRes::Good(SpecValue::Empty, pos + 1, line)
        } else if c == '\n' {
            OneRes::Good(SpecValue::Empty, pos + 1, bump_line(line))
        } else if c == '(' {
            let ke = step_to(input, pos, ident_end(input, pos + 1));
            match parse_body_s(input, ke, line) {
                ManyRes::Fail(l) => OneRes::Fail(l),
                ManyRes::Good(vs, p2, l2) => OneRes::Good(
                    SpecValue::Pair(
                        input.subrange(pos + 1, ke),
                        Box::new(SpecValue::Array(vs)),
                    ),
                    p2 + 1,
                    l2,
                ),
            }
        } else {
            let e = step_to(input, pos, ident_end(input, pos + 1));
            OneRes::Good(SpecValue::Ident(input.subrange(pos, e)), e, line)
        }
    }
}

/// The members of a keyed form's body: forms read one after the other until
/// the next unconsumed character is `)`; reaching the end of the input first
/// is the parser's only failure, reported with the current line.
/// Whitespace-only results are omitted.
pub open spec fn parse_body_s(input: Seq<char>, pos: int, line: int) -> ManyRes
    decreases input.len() - pos, 1int,
{
    if pos < 0 || pos >= input.len() {
        ManyRes::Fail(line)
    } else if input[pos] == ')' {
        ManyRes::Good(Seq::empty(), pos, line)
    } else {
        match parse_one_s(input, pos, line) {
            OneRes::Fail(l) => ManyRes::Fail(l),
            OneRes::Good(v, p2, l2) => {
                match parse_body_s(input, step_to(input, pos, p2), l2) {
                    ManyRes::Fail(l) => ManyRes::Fail(l),
                    ManyRes::Good(vs, p3, l3) => ManyRes::Good(
                        if v is Empty {
                            vs
                        } else {
                            seq![v] + vs
                        },
                        p3,
                        l3,
                    ),
                }
            },
        }
    }
}

/// A whole document: forms read until the end of the input, whitespace-only
/// results omitted.
pub open spec fn parse_all_s(input: Seq<char>, pos: int, line: int) -> ParseRes
    decreases input.len() - pos,
{
    if pos < 0 || pos >= input.len() {
        ParseRes::Good(Seq::empty())
    } else {
        match parse_one_s(input, pos, line) {
            OneRes::Fail(l) => ParseRes::Fail(l),
            OneRes::Good(v, p2, l2) => {
                match parse_all_s(input, step_to(input, pos, p2), l2) {
                    ParseRes::Fail(l) => ParseRes::Fail(l),
                    ParseRes::Good(vs) => ParseRes::Good(
                        if v is Empty {
                            vs
                        } else {
                            seq![v] + vs
                        },
                    ),
                }
            },
        }
    }
}

/// What parsing a document means: start at its first character, on line 1.
pub open spec fn spec_parse(input: Seq<char>) -> ParseRes {
    parse_all_s(input, 0, 1)
}

pub proof fn lemma_parse_one_bounds(input: Seq<char>, pos: int, line: int)
    requires
        0 <= pos,
        1 <= line <= usize::MAX as int,
    ensures
        match parse_one_s(input, pos, line) {
            OneRes::Good(v, p2, l2) => pos < p2 && (pos < input.len() ==> p2 <= input.len())
                && 1 <= l2 <= usize::MAX as int,
            OneRes::Fail(l) => 1 <= l <= usize::MAX as int,
        },
    decreases input.len() - pos, 0int,
{
    if 0 <= pos < input.len() {
        let c = input[pos];
        if c == ' ' || c == '\t' || c == '\r' || c == '\n' {
        } else if c == '(' {
            lemma_ident_end(input, pos + 1);
            let ke = ident_end(input, pos + 1);
            lemma_parse_body_bounds(input, ke, line);
        } else {
            lemma_ident_end(input, pos + 1);
        }
    }
}

pub proof fn lemma_parse_body_bounds(input: Seq<char>, pos: int, line: int)
    requires
        0 <= pos,
        1 <= line <= usize::MAX as int,
    ensures
        match parse_body_s(input, pos, line) {
            ManyRes::Good(vs, p3, l3) => pos <= p3 < input.len() && input[p3] == ')'
                && 1 <= l3 <= usize::MAX as int,
            ManyRes::Fail(l) => 1 <= l <= usize::MAX as int,
        },
    decreases input.len() - pos, 1int,
{
    if 0 <= pos < input.len() && input[pos] != ')' {
        lemma_parse_one_bounds(input, pos, line);
        match parse_one_s(input, pos, line) {
            OneRes::Fail(_) => {},
            OneRes::Good(v, p2, l2) => {
                lemma_parse_body_bounds(input, p2, l2);
            },
        }
    }
}

/// The list of node values of an `Array` is the list of its members' values.
pub proof fn lemma_abs_array(v: Vec<ConfigValue>)
    ensures
        abs_value(ConfigValue::Array(v)) == SpecValue::Array(view_list(v@)),
{
    match abs_value(ConfigValue::Array(v)) {
        SpecValue::Array(s) => {
            assert(s =~= view_list(v@));
        },
        _ => {
            assert(false);
        },
    }
}

/// A node that is not an `Array` has a value that is not an `Array`.
pub proof fn lemma_abs_not_array(v: ConfigValue)
    requires
        !(v matches ConfigValue::Array(_)),
    ensures
        !(abs_value(v) matches SpecValue::Array(_)),
{
    match v {
        ConfigValue::Ident(_) => {},
        ConfigValue::Array(_) => {},
        ConfigValue::Pair(_, _) => {},
        ConfigValue::Empty => {},
    }
}

/// The decimal digit `d` as a character.
pub open spec fn digit_char(d: int) -> char {
    if d == 0 {
        '0'
    } else if d == 1 {
        '1'
    } else if d == 2 {
        '2'
    } else if d == 3 {
        '3'
    } else if d == 4 {
        '4'
    } else if d == 5 {
        '5'
    } else if d == 6 {
        '6'
    } else if d == 7 {
        '7'
    } else if d == 8 {
        '8'
    } else {
        '9'
    }
}

/// The decimal rendering of a non-negative number, most significant digit
/// first.
pub open spec fn dec_str(n: int) -> Seq<char>
    decreases n,
{
    if n < 0 {
        Seq::empty()
    } else if n < 10 {
        seq![digit_char(n)]
    } else {
        dec_str(n / 10).push(digit_char(n % 10))
    }
}

/// The message of the parser's only failure, tagged with the line it
/// occurred on.
pub open spec fn syntax_err_msg(line: int) -> Seq<char> {
    "line "@ + dec_str(line) + ": Expected `)`, found EOF."@
}

/// Relies on String::push: appends exactly the one character at the end.
#[verifier::external_body]
pub(crate) fn push_char(s: &mut String, c: char)
    ensures
        final(s)@ == old(s)@.push(c),
{
    s.push(c);
}

fn digit_of(d: usize) -> (c: char)
    requires
        d < 10,
    ensures
        c == digit_char(d as int),
{
    if d == 0 {
        '0'
    } else if d == 1 {
        '1'
    } else if d == 2 {
        '2'
    } else if d == 3 {
        '3'
    } else if d == 4 {
        '4'
    } else if d == 5 {
        '5'
    } else if d == 6 {
        '6'
    } else if d == 7 {
        '7'
    } else if d == 8 {
        '8'
    } else {
        '9'
    }
}

/// The decimal rendering of a number, as a string.
#[verifier::loop_isolation(false)]
pub fn usize_to_string(n: usize) -> (r: String)
    ensures
        r@ == dec_str(n as int),
{
    let mut digits: Vec<char> = Vec::new();
    let mut m: usize = n;
    proof {
        assert(dec_str(n as int) =~= dec_str(n as int) + digits@.reverse());
    }
    while m >= 10
        invariant
            dec_str(n as int) =~= dec_str(m as int) + digits@.reverse(),
        decreases m,
    {
        let ghost dig0 = digits@;
        let ghost m0 = m as int;
        let d = m % 10;
        digits.push(digit_of(d));
        m = m / 10;
        proof {
            assert(digits@.drop_last() =~= dig0);
            assert(digits@.reverse() =~= seq![digit_char(d as int)] + dig0.reverse());
            assert(dec_str(m0) == dec_str(m0 / 10).push(digit_char(m0 % 10)));
            assert(dec_str(m0 / 10).push(digit_char(d as int)) + dig0.reverse() =~= dec_str(m0 / 10)
                + (seq![digit_char(d as int)] + dig0.reverse()));
            assert(dec_str(n as int) =~= dec_str(m as int) + digits@.reverse());
        }
    }
    let ghost digl = digits@;
    digits.push(digit_of(m));
    proof {
        assert(digits@.drop_last() =~= digl);
        assert(digits@.reverse() =~= seq![digit_char(m as int)] + digl.reverse());
        assert(dec_str(m as int) =~= seq![digit_char(m as int)]);
        assert(dec_str(n as int) =~= digits@.reverse());
    }
    let mut out = String::new();
    let len = digits.len();
    let mut j: usize = len;
    while j > 0
        invariant
            j <= len,
            out@ =~= digits@.reverse().take((len - j) as int),
        decreases j,
    {
        j = j - 1;
        push_char(&mut out, digits[j]);
        proof {
            assert(digits@.reverse()[(len - 1 - j) as int] == digits@[j as int]);
            assert(out@ =~= digits@.reverse().take((len - j) as int));
        }
    }
    proof {
        assert(digits@.reverse().take(len as int) =~= digits@.reverse());
    }
    out
}

fn is_term(c: char) -> (r: bool)
    ensures
        r == is_term_char(c),
{
    c == '\n' || c == '\r' || c == ' ' || c == '\t' || c == ')'
}

/// Whether two string slices hold the same characters.
#[verifier::loop_isolation(false)]
pub fn str_eq(a: &str, b: &str) -> (r: bool)
    ensures
        r == (a@ == b@),
{
    let na = a.unicode_len();
    let nb = b.unicode_len();
    if na != nb {
        return false;
    }
    let mut i: usize = 0;
    while i < na
        invariant
            i <= na,
            forall|j: int| 0 <= j < i ==> a@[j] == b@[j],
        decreases na - i,
    {
        if a.get_char(i) != b.get_char(i) {
            return false;
        }
        i = i + 1;
    }
    proof {
        assert(a@ =~= b@);
    }
    true
}

/// A deep copy of a node; the copy has the same mathematical value.
#[verifier::loop_isolation(false)]
pub fn clone_value(v: &ConfigValue) -> (r: ConfigValue)
    ensures
        r@ == v@,
    decreases v,
{
    match v {
        ConfigValue::Ident(s) => ConfigValue::Ident(s.clone()),
        ConfigValue::Array(vs) => {
            let mut out: Vec<ConfigValue> = Vec::new();
            let mut i: usize = 0;
            while i < vs.len()
                invariant
                    i <= vs@.len(),
                    out@.len() == i as int,
                    forall|j: int| 0 <= j < i ==> #[trigger] out@[j]@ == vs@[j]@,
                decreases vs@.len() - i,
            {
                proof {
                    let vv = *v;
                    match vv {
                        ConfigValue::Array(vs2) => {
                            assert(vs2 == *vs);
                            assert(decreases_to!(vv => vs2));
                            assert(decreases_to!(vs2 => vs2@));
                            assert(decreases_to!(vs2@ => vs2@[i as int]));
                        },
                        _ => {
                            assert(false);
                        },
                    }
                }
                let c = clone_value(&vs[i]);
                out.push(c);
                i = i + 1;
            }
            let r = ConfigValue::Array(out);
            proof {
                lemma_abs_array(out);
                match v {
                    ConfigValue::Array(vs2) => {
                        lemma_abs_array(*vs2);
                        assert(view_list(out@) =~= view_list(vs2@));
                    },
                    _ => {
                        assert(false);
                    },
                }
            }
            r
        },
        ConfigValue::Pair(k, b) => {
            proof {
                let vv = *v;
                match vv {
                    ConfigValue::Pair(k2, b2) => {
                        assert(decreases_to!(vv => b2));
                    },
                    _ => {
                        assert(false);
                    },
                }
            }
            ConfigValue::Pair(k.clone(), Box::new(clone_value(&**b)))
        },
        ConfigValue::Empty => ConfigValue::Empty,
    }
}

#[verifier::loop_isolation(false)]
fn clone_values(vs: &Vec<ConfigValue>) -> (r: Vec<ConfigValue>)
    ensures
        view_list(r@) == view_list(vs@),
{
    let mut out: Vec<ConfigValue> = Vec::new();
    let mut i: usize = 0;
    while i < vs.len()
        invariant
            i <= vs@.len(),
            out@.len() == i as int,
            forall|j: int| 0 <= j < i ==> #[trigger] out@[j]@ == vs@[j]@,
        decreases vs@.len() - i,
    {
        let c = clone_value(&vs[i]);
        out.push(c);
        i = i + 1;
    }
    proof {
        assert(view_list(out@) =~= view_list(vs@));
    }
    out
}

/// The recursive-descent parser: a read cursor, a line counter, the input
/// characters, and the nodes collected so far.
pub struct ConfigParser {
    current: usize,
    line: usize,
    input: Vec<char>,
    output: Vec<ConfigValue>,
}

impl ConfigParser {
    /// The input characters.
    pub closed spec fn text(&self) -> Seq<char> {
        self.input@
    }

    /// The cursor: how many characters have been consumed.
    pub closed spec fn pos(&self) -> int {
        self.current as int
    }

    /// The current 1-based line number.
    pub closed spec fn line_no(&self) -> int {
        self.line as int
    }

    /// The values of the nodes collected so far.
    pub closed spec fn collected(&self) -> Seq<SpecValue> {
        view_list(self.output@)
    }

    pub open spec fn wf(&self) -> bool {
        &&& self.pos() <= self.text().len()
        &&& 1 <= self.line_no() <= usize::MAX as int
    }

    /// A fresh parser over the given text: cursor at the start, line 1,
    /// nothing collected.
    #[verifier::loop_isolation(false)]
    pub fn new(input: &str) -> (r: ConfigParser)
        ensures
            r.wf(),
            r.text() == input@,
            r.pos() == 0,
            r.line_no() == 1,
            r.collected() == Seq::<SpecValue>::empty(),
    {
        let n = input.unicode_len();
        let mut chars: Vec<char> = Vec::new();
        let mut i: usize = 0;
        while i < n
            invariant
                i <= n,
                chars@ =~= input@.take(i as int),
            decreases n - i,
        {
            let c = input.get_char(i);
            chars.push(c);
            proof {
                assert(chars@ =~= input@.take(i + 1));
            }
            i = i + 1;
        }
        proof {
            assert(input@.take(n as int) =~= input@);
        }
        let p = ConfigParser { current: 0, line: 1, input: chars, output: Vec::new() };
        proof {
            assert(p.collected() =~= Seq::<SpecValue>::empty());
        }
        p
    }

    fn advance(&mut self) -> (c: char)
        requires
            old(self).wf(),
            old(self).pos() < old(self).text().len(),
        ensures
            final(self).wf(),
            c == old(self).text()[old(self).pos()],
            final(self).text() == old(self).text(),
            final(self).pos() == old(self).pos() + 1,
            final(self).line_no() == old(self).line_no(),
            final(self).collected() == old(self).collected(),
    {
        let _n = self.input.len();
        let c = self.input[self.current];
        self.current = self.current + 1;
        c
    }

    fn peek_char(&self) -> (c: char)
        requires
            self.wf(),
            self.pos() < self.text().len(),
        ensures
            c == self.text()[self.pos()],
    {
        self.input[self.current]
    }

    fn is_at_end(&self) -> (r: bool)
        requires
            self.wf(),
        ensures
            r == (self.pos() >= self.text().len()),
    {
        self.current >= self.input.len()
    }

    /// Saturating line bump: the counter stops at the largest machine value.
    fn bump(&mut self)
        requires
            old(self).wf(),
        ensures
            final(self).wf(),
            final(self).text() == old(self).text(),
            final(self).pos() == old(self).pos(),
            final(self).collected() == old(self).collected(),
            final(self).line_no() == bump_line(old(self).line_no()),
    {
        if self.line < usize::MAX {
            self.line = self.line + 1;
        }
    }

    /// The parser's one error, tagged with the current line.
    fn syntax_error(&self) -> (e: Error)
        requires
            self.wf(),
        ensures
            e.0@ == syntax_err_msg(self.line_no()),
    {
        let mut m = String::new();
        m.append("line ");
        let num = usize_to_string(self.line);
        m.append(num.as_str());
        m.append(": Expected `)`, found EOF.");
        Error(m)
    }

    /// Consumes characters up to the next terminating character (or the end
    /// of the input) and returns them.
    #[verifier::loop_isolation(false)]
    fn parse_ident(&mut self) -> (r: String)
        requires
            old(self).wf(),
        ensures
            final(self).wf(),
            final(self).text() == old(self).text(),
            final(self).line_no() == old(self).line_no(),
            final(self).collected() == old(self).collected(),
            final(self).pos() == ident_end(old(self).text(), old(self).pos()),
            r@ == old(self).text().subrange(old(self).pos(), final(self).pos()),
    {
        let ghost input = self.text();
        let ghost p0 = self.pos();
        let mut out = String::new();
        loop
            invariant
                self.wf(),
                self.text() == input,
                self.line_no() == old(self).line_no(),
                self.collected() == old(self).collected(),
                p0 <= self.pos() <= input.len(),
                out@ =~= input.subrange(p0, self.pos()),
                ident_end(input, p0) == ident_end(input, self.pos()),
            decreases input.len() - self.pos(),
        {
            if self.is_at_end() {
                proof {
                    assert(ident_end(input, self.pos()) == self.pos());
                }
                return out;
            }
            let c = self.peek_char();
            if is_term(c) {
                proof {
                    assert(ident_end(input, self.pos()) == self.pos());
                }
                return out;
            }
            let ghost pb = self.pos();
            let c2 = self.advance();
            push_char(&mut out, c2);
            proof {
                assert(out@ =~= input.subrange(p0, self.pos()));
                assert(ident_end(input, pb) == ident_end(input, pb + 1));
            }
        }
    }

    /// Reads one form: whitespace (an `Empty` result), a bare identifier,
    /// or a parenthesized keyed form, exactly as `parse_one_s` says.
    #[verifier::loop_isolation(false)]
    fn parse_one(&mut self) -> (r: Result<ConfigValue, Error>)
        requires
            old(self).wf(),
            old(self).pos() < old(self).text().len(),
        ensures
            final(self).wf(),
            final(self).text() == old(self).text(),
            final(self).collected() == old(self).collected(),
            match parse_one_s(old(self).text(), old(self).pos(), old(self).line_no()) {
                OneRes::Good(v, p2, l2) => {
                    &&& r matches Ok(cv) && cv@ == v
                    &&& final(self).pos() == p2
                    &&& final(self).line_no() == l2
                },
                OneRes::Fail(l) => r matches Err(e) && e.0@ == syntax_err_msg(l),
            },
        decreases old(self).text().len() - old(self).pos(),
    {
        let ghost input = self.text();
        let ghost p0 = self.pos();
        let ghost l0 = self.line_no();
        let ghost c0 = self.collected();
        let current = self.advance();
        if current == ' ' || current == '\t' || current == '\r' {
            Ok(ConfigValue::Empty)
        } else if current == '\n' {
            self.bump();
            Ok(ConfigValue::Empty)
        } else if current == '(' {
            proof {
                lemma_ident_end(input, p0 + 1);
            }
            let key = self.parse_ident();
            let ghost ke = self.pos();
            proof {
                assert(ke == step_to(input, p0, ident_end(input, p0 + 1)));
            }
            let mut body: Vec<ConfigValue> = Vec::new();
            proof {
                assert(view_list(body@) =~= Seq::<SpecValue>::empty());
                match parse_body_s(input, ke, l0) {
                    ManyRes::Good(vs, p3, l3) => {
                        assert(view_list(body@) + vs =~= vs);
                    },
                    _ => {},
                }
            }
            loop
                invariant
                    self.wf(),
                    self.text() == input,
                    self.collected() == c0,
                    p0 + 1 <= self.pos() <= input.len(),
                    match parse_body_s(input, self.pos(), self.line_no()) {
                        ManyRes::Fail(l) => parse_body_s(input, ke, l0) == ManyRes::Fail(l),
                        ManyRes::Good(vs, p3, l3) => parse_body_s(input, ke, l0)
                            == ManyRes::Good(view_list(body@) + vs, p3, l3),
                    },
                decreases input.len() - self.pos(),
            {
                if self.is_at_end() {
                    return Err(self.syntax_error());
                }
                let c = self.peek_char();
                if c == ')' {
                    proof {
                        match parse_body_s(input, ke, l0) {
                            ManyRes::Good(vs, p3, l3) => {
                                assert(view_list(body@) + Seq::<SpecValue>::empty() =~= view_list(
                                    body@));
                            },
                            _ => {},
                        }
                    }
                    self.advance();
                    let r = ConfigValue::Pair(key, Box::new(ConfigValue::Array(body)));
                    proof {
                        lemma_abs_array(body);
                    }
                    return Ok(r);
                }
                let ghost pb = self.pos();
                let ghost lb = self.line_no();
                let ghost bodyb = body@;
                let r1 = self.parse_one();
                proof {
                    lemma_parse_one_bounds(input, pb, lb);
                }
                match r1 {
                    Ok(val) => {
                        if !(matches!(val, ConfigValue::Empty)) {
                            body.push(val);
                        }
                        proof {
                            match parse_one_s(input, pb, lb) {
                                OneRes::Good(v, p2, l2) => {
                                    assert(step_to(input, pb, p2) == p2);
                                    match parse_body_s(input, p2, l2) {
                                        ManyRes::Fail(_) => {},
                                        ManyRes::Good(vs, p3, l3) => {
                                            if v is Empty {
                                            } else {
                                                assert(view_list(body@) =~= view_list(bodyb).push(
                                                    v));
                                                assert(view_list(bodyb) + (seq![v] + vs)
                                                    =~= view_list(body@) + vs);
                                            }
                                        },
                                    }
                                },
                                OneRes::Fail(_) => {
                                    assert(false);
                                },
                            }
                        }
                    },
                    Err(e) => {
                        return Err(e);
                    },
                }
            }
        } else {
            proof {
                lemma_ident_end(input, p0 + 1);
            }
            let mut s = String::new();
            push_char(&mut s, current);
            let rest = self.parse_ident();
            s.append(rest.as_str());
            proof {
                assert(s@ =~= input.subrange(p0, self.pos()));
                assert(step_to(input, p0, ident_end(input, p0 + 1)) == ident_end(input, p0 + 1));
            }
            Ok(ConfigValue::Ident(s))
        }
    }

    /// Reads the whole input and returns a copy of every non-`Empty` form
    /// collected, in order, exactly as `parse_all_s` says.
    #[verifier::loop_isolation(false)]
    pub fn parse(&mut self) -> (r: Result<Vec<ConfigValue>, Error>)
        requires
            old(self).wf(),
        ensures
            final(self).wf(),
            final(self).text() == old(self).text(),
            match parse_all_s(old(self).text(), old(self).pos(), old(self).line_no()) {
                ParseRes::Good(vs) => {
                    &&& r matches Ok(out) && view_list(out@) == old(self).collected() + vs
                    &&& final(self).collected() == old(self).collected() + vs
                },
                ParseRes::Fail(l) => r matches Err(e) && e.0@ == syntax_err_msg(l),
            },
    {
        let ghost input = self.text();
        let ghost p0 = self.pos();
        let ghost l0 = self.line_no();
        let ghost c0 = self.collected();
        proof {
            assert(c0.skip(c0.len() as int) =~= Seq::<SpecValue>::empty());
            assert(c0.take(c0.len() as int) =~= c0);
            match parse_all_s(input, p0, l0) {
                ParseRes::Good(vs) => {
                    assert(c0.skip(c0.len() as int) + vs =~= vs);
                },
                _ => {},
            }
        }
        while !self.is_at_end()
            invariant
                self.wf(),
                self.text() == input,
                c0.len() <= self.collected().len(),
                self.collected().take(c0.len() as int) == c0,
                match parse_all_s(input, self.pos(), self.line_no()) {
                    ParseRes::Fail(l) => parse_all_s(input, p0, l0) == ParseRes::Fail(l),
                    ParseRes::Good(vs) => parse_all_s(input, p0, l0) == ParseRes::Good(
                        self.collected().skip(c0.len() as int) + vs,
                    ),
                },
            decreases input.len() - self.pos(),
        {
            let ghost pb = self.pos();
            let ghost lb = self.line_no();
            let ghost colb = self.collected();
            let r1 = self.parse_one();
            proof {
                lemma_parse_one_bounds(input, pb, lb);
            }
            match r1 {
                Ok(val) => {
                    if !(matches!(val, ConfigValue::Empty)) {
                        self.output.push(val);
                    }
                    proof {
                        assert(self.collected() =~= if val@ is Empty {
                            colb
                        } else {
                            colb.push(val@)
                        });
                        assert(self.collected().take(c0.len() as int) =~= c0);
                        match parse_one_s(input, pb, lb) {
                            OneRes::Good(v, p2, l2) => {
                                assert(step_to(input, pb, p2) == p2);
                                match parse_all_s(input, p2, l2) {
                                    ParseRes::Fail(_) => {},
                                    ParseRes::Good(vs) => {
                                        if v is Empty {
                                        } else {
                                            assert(self.collected().skip(c0.len() as int)
                                                =~= colb.skip(c0.len() as int).push(v));
                                            assert(colb.skip(c0.len() as int) + (seq![v] + vs)
                                                =~= self.collected().skip(c0.len() as int) + vs);
                                        }
                                    },
                                }
                            },
                            OneRes::Fail(_) => {
                                assert(false);
                            },
                        }
                    }
                },
                Err(e) => {
                    return Err(e);
                },
            }
        }
        let cloned = clone_values(&self.output);
        proof {
            assert(self.collected() =~= self.collected().take(c0.len() as int)
                + self.collected().skip(c0.len() as int));
            match parse_all_s(input, self.pos(), self.line_no()) {
                ParseRes::Good(vs) => {
                    assert(vs =~= Seq::<SpecValue>::empty());
                    assert(self.collected().skip(c0.len() as int) + vs =~= self.collected().skip(
                        c0.len() as int));
                },
                ParseRes::Fail(_) => {
                    assert(false);
                },
            }
        }
        Ok(cloned)
    }
}

/// Parses a whole document from a string slice with a fresh parser.
pub fn parse_string(s: &str) -> (r: Result<Vec<ConfigValue>, Error>)
    ensures
        match spec_parse(s@) {
            ParseRes::Good(vs) => r matches Ok(out) && view_list(out@) == vs,
            ParseRes::Fail(l) => r matches Err(e) && e.0@ == syntax_err_msg(l),
        },
{
    let mut p = ConfigParser::new(s);
    let r = p.parse();
    proof {
        match spec_parse(s@) {
            ParseRes::Good(vs) => {
                assert(Seq::<SpecValue>::empty() + vs =~= vs);
            },
            ParseRes::Fail(_) => {},
        }
    }
    r
}

/// The body of the first keyed form whose key matches, in document order;
/// later duplicates are shadowed.
pub open spec fn find_val_s(vals: Seq<SpecValue>, key: Seq<char>) -> Option<SpecValue>
    decreases vals.len(),
{
    if vals.len() == 0 {
        None
    } else {
        match vals[0] {
            SpecValue::Pair(k, b) => if k == key {
                Some(*b)
            } else {
                find_val_s(vals.drop_first(), key)
            },
            _ => find_val_s(vals.drop_first(), key),
        }
    }
}

/// Looks a key up among top-level forms: a copy of the body of the first
/// `Pair` with that key, or nothing.
#[verifier::loop_isolation(false)]
pub fn find_val(values: &[ConfigValue], key: &str) -> (r: Option<ConfigValue>)
    ensures
        match find_val_s(view_list(values@), key@) {
            Some(b) => r matches Some(cv) && cv@ == b,
            None => r is None,
        },
{
    let n = values.len();
    let mut i: usize = 0;
    proof {
        assert(view_list(values@).skip(0) =~= view_list(values@));
    }
    while i < n
        invariant
            i <= n,
            find_val_s(view_list(values@), key@) == find_val_s(
                view_list(values@).skip(i as int),
                key@,
            ),
        decreases n - i,
    {
        proof {
            assert(view_list(values@).skip(i as int)[0] == values@[i as int]@);
            assert(view_list(values@).skip(i as int).drop_first() =~= view_list(values@).skip(
                i + 1));
        }
        match &values[i] {
            ConfigValue::Pair(k, b) => {
                if str_eq(k.as_str(), key) {
                    let c = clone_value(&**b);
                    return Some(c);
                }
            },
            _ => {},
        }
        i = i + 1;
    }
    proof {
        assert(view_list(values@).skip(n as int) =~= Seq::<SpecValue>::empty());
    }
    None
}

} // verus!
