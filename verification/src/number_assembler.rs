//! Template assembly: the placeholder grammar, and rendering a rule and a
//! sequence value into the caller-visible string.
//!
//! A placeholder is `{name}` or `{name:width}`: an opening brace, a name
//! of one or more ASCII letters, digits and underscores, optionally a
//! colon and one or more ASCII digits, and a closing brace. The names
//! `prefix`, `year` and `SEQ` are replaced; every other character of a
//! template, a placeholder of another name included, stands for itself.
//! Only `SEQ` reads its width: the prefix key is no number, and the year
//! always has its four digits.

use vstd::prelude::*;
use vstd::string::StringExecFns;
use crate::prefix_rule::{PrefixRule, PrefixRuleView};
use crate::text::{
    chars_of, decimal, digit_value, digits_number, is_digit, push_zero_padded, string_of,
    theorem_padding_keeps_the_value, zero_padded,
};

verus! {

/// The zero-pad width that a sequence placeholder asks for.
#[derive(Debug, Clone, Copy, PartialEq, Eq, Structural)]
pub enum Width {
    /// The placeholder names no width: the rule's `seq_length` applies.
    Default,
    /// The placeholder names this width.
    Explicit(u32),
    /// The placeholder names a width that does not fit in 32 bits.
    TooWide,
}

/// One step of a template scan.
#[derive(Debug, Clone, Copy, PartialEq, Eq, Structural)]
pub enum Token {
    /// One character that stands for itself.
    Literal(char),
    /// `{prefix}`: the prefix key.
    Prefix,
    /// `{year}`: the calendar year.
    Year,
    /// `{SEQ}` or `{SEQ:width}`: the sequence value.
    Sequence(Width),
}

/// Letters, digits and the underscore: what a placeholder's name is made of.
pub open spec fn is_name_char(c: char) -> bool {
    ('A' <= c && c <= 'Z') || ('a' <= c && c <= 'z') || ('0' <= c && c <= '9') || c == '_'
}

/// The end of the longest run of name characters that starts at `i`.
pub open spec fn name_end(t: Seq<char>, i: int) -> int
    decreases t.len() - i,
{
    if 0 <= i < t.len() && is_name_char(t[i]) {
        name_end(t, i + 1)
    } else {
        i
    }
}

/// The end of the longest run of decimal digits that starts at `i`.
pub open spec fn digits_end(t: Seq<char>, i: int) -> int
    decreases t.len() - i,
{
    if 0 <= i < t.len() && is_digit(t[i]) {
        digits_end(t, i + 1)
    } else {
        i
    }
}

/// The name of the placeholder that stands for the prefix key.
pub open spec fn word_prefix() -> Seq<char> {
    seq!['p', 'r', 'e', 'f', 'i', 'x']
}

/// The name of the placeholder that stands for the calendar year.
pub open spec fn word_year() -> Seq<char> {
    seq!['y', 'e', 'a', 'r']
}

/// The name of the placeholder that stands for the sequence value.
pub open spec fn word_seq() -> Seq<char> {
    seq!['S', 'E', 'Q']
}

/// The marker that a degraded prefix's numbers end in.
pub open spec fn blocked_marker() -> Seq<char> {
    seq!['-', 'N', 'P']
}

/// The width that a run of digits names.
pub open spec fn width_of(digits: Seq<char>) -> Width {
    if digits_number(digits) <= u32::MAX {
        Width::Explicit(digits_number(digits) as u32)
    } else {
        Width::TooWide
    }
}

/// What a well-formed placeholder that starts at `i` and ends before `end`
/// stands for. A name outside the recognized set makes its opening brace
/// an ordinary character, so the placeholder passes through untouched.
pub open spec fn named_token(t: Seq<char>, i: int, name: Seq<char>, width: Width, end: int) -> (
    Token,
    int,
) {
    if name == word_prefix() {
        (Token::Prefix, end)
    } else if name == word_year() {
        (Token::Year, end)
    } else if name == word_seq() {
        (Token::Sequence(width), end)
    } else {
        (Token::Literal(t[i]), i + 1)
    }
}

/// The token that starts at position `i` of template `t`, and the
/// position after it. A placeholder is `{`, a non-empty name, optionally
/// `:` and a non-empty run of digits, then `}`.
pub open spec fn token_at(t: Seq<char>, i: int) -> (Token, int)
    recommends
        0 <= i < t.len(),
{
    let ne = name_end(t, i + 1);
    if t[i] != '{' || ne <= i + 1 || ne >= t.len() {
        (Token::Literal(t[i]), i + 1)
    } else if t[ne] == '}' {
        named_token(t, i, t.subrange(i + 1, ne), Width::Default, ne + 1)
    } else if t[ne] == ':' {
        let de = digits_end(t, ne + 1);
        if de <= ne + 1 || de >= t.len() || t[de] != '}' {
            (Token::Literal(t[i]), i + 1)
        } else {
            named_token(t, i, t.subrange(i + 1, ne), width_of(t.subrange(ne + 1, de)), de + 1)
        }
    } else {
        (Token::Literal(t[i]), i + 1)
    }
}

/// The pad width of a sequence placeholder under a rule whose default is
/// `seq_length`, where it has one: the explicit width, else a default of
/// at least one.
pub open spec fn resolved_width(width: Width, seq_length: u32) -> Option<u32> {
    match width {
        Width::Explicit(w) => Some(w),
        Width::Default => if seq_length >= 1 {
            Some(seq_length)
        } else {
            None
        },
        Width::TooWide => None,
    }
}

/// The values that placeholders are replaced by.
pub ghost struct Fields {
    pub prefix: Seq<char>,
    pub year: int,
    pub sequence: nat,
    pub seq_length: u32,
}

/// A calendar year in at least four digits, with a minus sign before a
/// year below zero. A year above 9999 is written in full, without a sign.
pub open spec fn year_text(year: int) -> Seq<char> {
    if year >= 0 {
        zero_padded(year as nat, 4)
    } else {
        seq!['-'] + zero_padded((-year) as nat, 4)
    }
}

/// The text that a token contributes to the assembled number.
pub open spec fn render(token: Token, fields: Fields) -> Seq<char> {
    match token {
        Token::Literal(c) => seq![c],
        Token::Prefix => fields.prefix,
        Token::Year => year_text(fields.year),
        Token::Sequence(width) => match resolved_width(width, fields.seq_length) {
            Some(w) => zero_padded(fields.sequence, w as nat),
            None => Seq::empty(),
        },
    }
}

/// The expansion of the part of template `t` that starts at `i`.
pub open spec fn expand_from(t: Seq<char>, i: int, fields: Fields) -> Seq<char>
    decreases t.len() - i,
{
    if i < 0 || i >= t.len() {
        Seq::empty()
    } else {
        let (token, next) = token_at(t, i);
        if next <= i {
            Seq::empty()
        } else {
            render(token, fields) + expand_from(t, next, fields)
        }
    }
}

/// Whether the part of `t` from `i` on holds a sequence placeholder.
pub open spec fn has_sequence_from(t: Seq<char>, i: int) -> bool
    decreases t.len() - i,
{
    if i < 0 || i >= t.len() {
        false
    } else {
        let (token, next) = token_at(t, i);
        token is Sequence || (next > i && has_sequence_from(t, next))
    }
}

/// Whether the part of `t` from `i` on holds a sequence placeholder whose
/// pad width cannot be resolved.
pub open spec fn malformed_from(t: Seq<char>, i: int, seq_length: u32) -> bool
    decreases t.len() - i,
{
    if i < 0 || i >= t.len() {
        false
    } else {
        let (token, next) = token_at(t, i);
        (token is Sequence && resolved_width(token->Sequence_0, seq_length) is None) || (next > i
            && malformed_from(t, next, seq_length))
    }
}

/// A template that a rule may be registered with: it holds a sequence
/// placeholder, and every sequence placeholder has a resolvable width.
pub open spec fn format_is_valid(t: Seq<char>, seq_length: u32) -> bool {
    has_sequence_from(t, 0) && !malformed_from(t, 0, seq_length)
}

/// The number assembled from a rule, a prefix, a sequence value and a year.
pub open spec fn assembled(prefix: Seq<char>, rule: PrefixRuleView, sequence: u64, year: int) -> Seq<
    char,
> {
    let fields = Fields {
        prefix,
        year,
        sequence: sequence as nat,
        seq_length: rule.seq_length,
    };
    expand_from(rule.format, 0, fields) + if rule.network_partition {
        blocked_marker()
    } else {
        Seq::empty()
    }
}

/// The message of the error that a malformed template is answered with.
pub open spec fn malformed_message() -> Seq<char> {
    "sequence placeholder without a usable width"@
}

/// What assembly returns: the assembled number, or the error message for
/// a template that holds a sequence placeholder without a resolvable
/// width.
pub open spec fn assembly(prefix: Seq<char>, rule: PrefixRuleView, sequence: u64, year: int) -> Result<
    Seq<char>,
    Seq<char>,
> {
    if malformed_from(rule.format, 0, rule.seq_length) {
        Err(malformed_message())
    } else {
        Ok(assembled(prefix, rule, sequence, year))
    }
}

/// What an assembly call returned, as plain mathematical values.
pub open spec fn text_view(r: Result<String, String>) -> Result<Seq<char>, Seq<char>> {
    match r {
        Ok(number) => Ok(number@),
        Err(message) => Err(message@),
    }
}

fn is_name(c: char) -> (r: bool)
    ensures
        r == is_name_char(c),
{
    ('A' <= c && c <= 'Z') || ('a' <= c && c <= 'z') || ('0' <= c && c <= '9') || c == '_'
}

fn is_digit_char(c: char) -> (r: bool)
    ensures
        r == is_digit(c),
{
    '0' <= c && c <= '9'
}

fn scan_name_end(t: &Vec<char>, i: usize) -> (end: usize)
    requires
        i <= t@.len(),
    ensures
        end == name_end(t@, i as int),
        i <= end <= t@.len(),
{
    let mut j: usize = i;
    while j < t.len() && is_name(t[j])
        invariant
            i <= j <= t@.len(),
            name_end(t@, i as int) == name_end(t@, j as int),
        decreases t@.len() - j,
    {
        j = j + 1;
    }
    j
}

fn scan_digits_end(t: &Vec<char>, i: usize) -> (end: usize)
    requires
        i <= t@.len(),
    ensures
        end == digits_end(t@, i as int),
        i <= end <= t@.len(),
        forall|k: int| i <= k < end ==> is_digit(#[trigger] t@[k]),
{
    let mut j: usize = i;
    while j < t.len() && is_digit_char(t[j])
        invariant
            i <= j <= t@.len(),
            digits_end(t@, i as int) == digits_end(t@, j as int),
            forall|k: int| i <= k < j ==> is_digit(#[trigger] t@[k]),
        decreases t@.len() - j,
    {
        j = j + 1;
    }
    j
}

fn digit_number(c: char) -> (d: u64)
    requires
        is_digit(c),
    ensures
        d == digit_value(c),
        d <= 9,
{
    if c == '0' {
        0
    } else if c == '1' {
        1
    } else if c == '2' {
        2
    } else if c == '3' {
        3
    } else if c == '4' {
        4
    } else if c == '5' {
        5
    } else if c == '6' {
        6
    } else if c == '7' {
        7
    } else if c == '8' {
        8
    } else {
        9
    }
}

/// Reads the width that the digits at `from..to` name.
fn parse_width(t: &Vec<char>, from: usize, to: usize) -> (width: Width)
    requires
        from <= to <= t@.len(),
        forall|k: int| from <= k < to ==> is_digit(#[trigger] t@[k]),
    ensures
        width == width_of(t@.subrange(from as int, to as int)),
{
    let mut value: u64 = 0;
    let mut too_wide = false;
    let mut k: usize = from;
    assert(t@.subrange(from as int, from as int) =~= Seq::<char>::empty());
    while k < to
        invariant
            from <= k <= to <= t@.len(),
            forall|j: int| from <= j < to ==> is_digit(#[trigger] t@[j]),
            !too_wide ==> value == digits_number(t@.subrange(from as int, k as int)),
            !too_wide ==> value <= u32::MAX,
            too_wide ==> digits_number(t@.subrange(from as int, k as int)) > u32::MAX,
        decreases to - k,
    {
        let d = digit_number(t[k]);
        proof {
            let longer = t@.subrange(from as int, k as int + 1);
            assert(longer.drop_last() =~= t@.subrange(from as int, k as int));
            assert(longer.last() == t@[k as int]);
        }
        if !too_wide {
            value = value * 10 + d;
            if value > 0xffff_ffff {
                too_wide = true;
            }
        }
        k = k + 1;
    }
    if too_wide {
        Width::TooWide
    } else {
        Width::Explicit(value as u32)
    }
}

fn is_word_prefix(t: &Vec<char>, from: usize, to: usize) -> (r: bool)
    requires
        from <= to <= t@.len(),
    ensures
        r == (t@.subrange(from as int, to as int) == word_prefix()),
{
    let r = to - from == 6 && t[from] == 'p' && t[from + 1] == 'r' && t[from + 2] == 'e' && t[from
        + 3] == 'f' && t[from + 4] == 'i' && t[from + 5] == 'x';
    proof {
        let part = t@.subrange(from as int, to as int);
        let word = word_prefix();
        assert(part.len() == to - from);
        assert forall|k: int| 0 <= k < part.len() implies part[k] == t@[from + k] by {}
        if r {
            assert(part =~= word);
        } else if part == word_prefix() {
            assert(part[0] == 'p' && part[1] == 'r' && part[2] == 'e' && part[3] == 'f' && part[4]
                == 'i' && part[5] == 'x');
        }
    }
    r
}

fn is_word_year(t: &Vec<char>, from: usize, to: usize) -> (r: bool)
    requires
        from <= to <= t@.len(),
    ensures
        r == (t@.subrange(from as int, to as int) == word_year()),
{
    let r = to - from == 4 && t[from] == 'y' && t[from + 1] == 'e' && t[from + 2] == 'a' && t[from
        + 3] == 'r';
    proof {
        let part = t@.subrange(from as int, to as int);
        let word = word_year();
        assert(part.len() == to - from);
        assert forall|k: int| 0 <= k < part.len() implies part[k] == t@[from + k] by {}
        if r {
            assert(part =~= word);
        } else if part == word_year() {
            assert(part[0] == 'y' && part[1] == 'e' && part[2] == 'a' && part[3] == 'r');
        }
    }
    r
}

fn is_word_seq(t: &Vec<char>, from: usize, to: usize) -> (r: bool)
    requires
        from <= to <= t@.len(),
    ensures
        r == (t@.subrange(from as int, to as int) == word_seq()),
{
    let r = to - from == 3 && t[from] == 'S' && t[from + 1] == 'E' && t[from + 2] == 'Q';
    proof {
        let part = t@.subrange(from as int, to as int);
        let word = word_seq();
        assert(part.len() == to - from);
        assert forall|k: int| 0 <= k < part.len() implies part[k] == t@[from + k] by {}
        if r {
            assert(part =~= word);
        } else if part == word_seq() {
            assert(part[0] == 'S' && part[1] == 'E' && part[2] == 'Q');
        }
    }
    r
}

fn classify(t: &Vec<char>, i: usize, name_to: usize, width: Width, end: usize) -> (r: (
    Token,
    usize,
))
    requires
        i + 1 <= name_to <= t@.len(),
        i < end <= t@.len(),
    ensures
        (r.0, r.1 as int) == named_token(
            t@,
            i as int,
            t@.subrange(i + 1, name_to as int),
            width,
            end as int,
        ),
        i < r.1 <= t@.len(),
{
    if is_word_prefix(t, i + 1, name_to) {
        (Token::Prefix, end)
    } else if is_word_year(t, i + 1, name_to) {
        (Token::Year, end)
    } else if is_word_seq(t, i + 1, name_to) {
        (Token::Sequence(width), end)
    } else {
        (Token::Literal(t[i]), i + 1)
    }
}

/// Reads the token that starts at position `i` of a template.
pub fn scan_token(t: &Vec<char>, i: usize) -> (r: (Token, usize))
    requires
        i < t@.len(),
    ensures
        (r.0, r.1 as int) == token_at(t@, i as int),
        i < r.1 <= t@.len(),
{
    let len = t.len();
    if t[i] != '{' {
        return (Token::Literal(t[i]), i + 1);
    }
    let ne = scan_name_end(t, i + 1);
    if ne <= i + 1 || ne >= t.len() {
        (Token::Literal(t[i]), i + 1)
    } else if t[ne] == '}' {
        classify(t, i, ne, Width::Default, ne + 1)
    } else if t[ne] == ':' {
        let de = scan_digits_end(t, ne + 1);
        if de <= ne + 1 || de >= t.len() || t[de] != '}' {
            (Token::Literal(t[i]), i + 1)
        } else {
            let width = parse_width(t, ne + 1, de);
            classify(t, i, ne, width, de + 1)
        }
    } else {
        (Token::Literal(t[i]), i + 1)
    }
}

fn resolve_width(width: Width, seq_length: u32) -> (r: Option<u32>)
    ensures
        r == resolved_width(width, seq_length),
{
    match width {
        Width::Explicit(w) => Some(w),
        Width::Default => if seq_length >= 1 {
            Some(seq_length)
        } else {
            None
        },
        Width::TooWide => None,
    }
}

fn push_all(out: &mut Vec<char>, part: &Vec<char>)
    ensures
        final(out)@ == old(out)@ + part@,
{
    let mut k: usize = 0;
    while k < part.len()
        invariant
            k <= part@.len(),
            out@ == old(out)@ + part@.take(k as int),
        decreases part@.len() - k,
    {
        out.push(part[k]);
        k = k + 1;
        assert(out@ =~= old(out)@ + part@.take(k as int));
    }
    assert(part@.take(k as int) =~= part@);
}

fn push_year(out: &mut Vec<char>, year: i32)
    ensures
        final(out)@ == old(out)@ + year_text(year as int),
{
    if year >= 0 {
        push_zero_padded(out, year as u64, 4);
    } else {
        out.push('-');
        let ghost signed = out@;
        let positive: i64 = -(year as i64);
        push_zero_padded(out, positive as u64, 4);
        assert(out@ =~= old(out)@ + (seq!['-'] + zero_padded((-year) as nat, 4)));
    }
}

/// Whether a template may be registered under a rule whose default pad
/// width is `seq_length`.
pub fn is_valid_format(format: &str, seq_length: u32) -> (valid: bool)
    ensures
        valid == format_is_valid(format@, seq_length),
{
    let t = chars_of(format);
    let mut seen = false;
    let mut i: usize = 0;
    while i < t.len()
        invariant
            i <= t@.len(),
            t@ == format@,
            has_sequence_from(t@, 0) == (seen || has_sequence_from(t@, i as int)),
            malformed_from(t@, 0, seq_length) == malformed_from(t@, i as int, seq_length),
        decreases t@.len() - i,
    {
        let (token, next) = scan_token(&t, i);
        if let Token::Sequence(width) = token {
            if resolve_width(width, seq_length).is_none() {
                return false;
            }
            seen = true;
        }
        i = next;
    }
    seen
}

/// Renders rules and sequence values into numbers.
#[derive(Debug, Clone, Copy)]
pub struct NumberAssembler {}

impl NumberAssembler {
    /// An assembler. It keeps nothing from one call to the next.
    pub fn new() -> (assembler: Self) {
        NumberAssembler {  }
    }

    /// Assembles the number for `sequence` under `prefix_rule`, with `year`
    /// as the calendar year. Fails exactly on a template that holds a
    /// sequence placeholder without a resolvable width.
    pub fn assemble_number_in_year(
        &self,
        prefix: &str,
        prefix_rule: &PrefixRule,
        sequence: u64,
        year: i32,
    ) -> (r: Result<String, String>)
        ensures
            text_view(r) == assembly(prefix@, prefix_rule@, sequence, year as int),
    {
        let t = chars_of(prefix_rule.format.as_str());
        let p = chars_of(prefix);
        let seq_length = prefix_rule.seq_length;
        let ghost fields = Fields {
            prefix: prefix@,
            year: year as int,
            sequence: sequence as nat,
            seq_length,
        };
        let mut out: Vec<char> = Vec::new();
        let mut i: usize = 0;
        while i < t.len()
            invariant
                i <= t@.len(),
                t@ == prefix_rule@.format,
                p@ == fields.prefix,
                fields.year == year,
                fields.sequence == sequence,
                fields.seq_length == seq_length,
                seq_length == prefix_rule@.seq_length,
                out@ + expand_from(t@, i as int, fields) == expand_from(t@, 0, fields),
                malformed_from(t@, 0, seq_length) == malformed_from(t@, i as int, seq_length),
            decreases t@.len() - i,
        {
            let ghost before = out@;
            let (token, next) = scan_token(&t, i);
            match token {
                Token::Literal(c) => {
                    out.push(c);
                    assert(out@ =~= before + seq![c]);
                },
                Token::Prefix => {
                    push_all(&mut out, &p);
                },
                Token::Year => {
                    push_year(&mut out, year);
                },
                Token::Sequence(width) => {
                    match resolve_width(width, seq_length) {
                        Some(w) => {
                            push_zero_padded(&mut out, sequence, w);
                        },
                        None => {
                            assert(malformed_from(t@, i as int, seq_length));
                            return Err(String::from_str("sequence placeholder without a usable width"));
                        },
                    }
                },
            }
            proof {
                assert(out@ == before + render(token, fields));
                assert(out@ + expand_from(t@, next as int, fields) =~= before + (render(
                    token,
                    fields,
                ) + expand_from(t@, next as int, fields)));
            }
            i = next;
        }
        if prefix_rule.network_partition {
            let ghost body = out@;
            out.push('-');
            out.push('N');
            out.push('P');
            assert(out@ =~= body + blocked_marker());
        }
        proof {
            assert(expand_from(t@, i as int, fields) =~= Seq::<char>::empty());
            assert(out@ =~= assembled(prefix@, prefix_rule@, sequence, year as int));
        }
        Ok(string_of(&out))
    }

    /// Assembles the number for `sequence` under `prefix_rule`, in the
    /// calendar year that the clock shows at the call.
    pub fn assemble_number(&self, prefix: &str, prefix_rule: &PrefixRule, sequence: u64) -> (r:
        Result<String, String>)
        ensures
            exists|year: int|
                1970 <= year <= i32::MAX && text_view(r) == #[trigger] assembly(
                    prefix@,
                    prefix_rule@,
                    sequence,
                    year,
                ),
    {
        let year = crate::clock::current_year();
        self.assemble_number_in_year(prefix, prefix_rule, sequence, year)
    }
}

/// Assembly is a function of its inputs. Two calls with the same prefix,
/// sequence value and year, under rules that agree on the template, the
/// default width and the degraded flag, return the same: the same number,
/// or the same error. Nothing else of a rule is read, and nothing is kept
/// from one call to the next.
pub proof fn theorem_assembly_is_repeatable(
    first: Result<String, String>,
    second: Result<String, String>,
    a: PrefixRuleView,
    b: PrefixRuleView,
    prefix: Seq<char>,
    sequence: u64,
    year: int,
)
    requires
        a.format == b.format,
        a.seq_length == b.seq_length,
        a.network_partition == b.network_partition,
        text_view(first) == assembly(prefix, a, sequence, year),
        text_view(second) == assembly(prefix, b, sequence, year),
    ensures
        text_view(first) == text_view(second),
{
}

proof fn lemma_longer_values_expand_longer(t: Seq<char>, i: int, fields: Fields, n: nat, m: nat)
    requires
        decimal(n).len() <= decimal(m).len(),
    ensures
        expand_from(t, i, Fields { sequence: n, ..fields }).len() <= expand_from(
            t,
            i,
            Fields { sequence: m, ..fields },
        ).len(),
    decreases t.len() - i,
{
    if 0 <= i < t.len() {
        let (token, next) = token_at(t, i);
        if next > i {
            lemma_longer_values_expand_longer(t, next, fields, n, m);
            if let Token::Sequence(width) = token {
                if let Some(w) = resolved_width(width, fields.seq_length) {
                    theorem_padding_keeps_the_value(n, w as nat);
                    theorem_padding_keeps_the_value(m, w as nat);
                }
            }
        }
    }
}

proof fn lemma_expansions_differ(t: Seq<char>, i: int, fields: Fields, n: nat, m: nat)
    requires
        n != m,
        has_sequence_from(t, i),
        !malformed_from(t, i, fields.seq_length),
    ensures
        expand_from(t, i, Fields { sequence: n, ..fields }) != expand_from(
            t,
            i,
            Fields { sequence: m, ..fields },
        ),
    decreases t.len() - i,
{
    let with_n = Fields { sequence: n, ..fields };
    let with_m = Fields { sequence: m, ..fields };
    let (token, next) = token_at(t, i);
    let rest_n = expand_from(t, next, with_n);
    let rest_m = expand_from(t, next, with_m);
    let all_n = expand_from(t, i, with_n);
    let all_m = expand_from(t, i, with_m);
    assert(all_n == render(token, with_n) + rest_n);
    assert(all_m == render(token, with_m) + rest_m);
    match token {
        Token::Sequence(width) => {
            let w = resolved_width(width, fields.seq_length)->Some_0 as nat;
            let piece_n = zero_padded(n, w);
            let piece_m = zero_padded(m, w);
            theorem_padding_keeps_the_value(n, w);
            theorem_padding_keeps_the_value(m, w);
            if piece_n.len() == piece_m.len() {
                assert(all_n.subrange(0, piece_n.len() as int) =~= piece_n);
                assert(all_m.subrange(0, piece_m.len() as int) =~= piece_m);
            } else if piece_n.len() < piece_m.len() {
                lemma_longer_values_expand_longer(t, next, fields, n, m);
            } else {
                lemma_longer_values_expand_longer(t, next, fields, m, n);
            }
        },
        _ => {
            let piece = render(token, with_n);
            assert(render(token, with_m) == piece);
            lemma_expansions_differ(t, next, fields, n, m);
            assert(all_n.subrange(piece.len() as int, all_n.len() as int) =~= rest_n);
            assert(all_m.subrange(piece.len() as int, all_m.len() as int) =~= rest_m);
        },
    }
}

/// Distinct sequence values give distinct numbers: under a rule with a
/// valid template, two different sequence values are never assembled
/// into the same number for one prefix and one year.
pub proof fn theorem_distinct_values_give_distinct_numbers(
    prefix: Seq<char>,
    rule: PrefixRuleView,
    a: u64,
    b: u64,
    year: int,
)
    requires
        a != b,
        format_is_valid(rule.format, rule.seq_length),
    ensures
        assembled(prefix, rule, a, year) != assembled(prefix, rule, b, year),
{
    let fields = Fields { prefix, year, sequence: 0, seq_length: rule.seq_length };
    let with_a = Fields { sequence: a as nat, ..fields };
    let with_b = Fields { sequence: b as nat, ..fields };
    lemma_expansions_differ(rule.format, 0, fields, a as nat, b as nat);
    let body_a = expand_from(rule.format, 0, with_a);
    let body_b = expand_from(rule.format, 0, with_b);
    let all_a = assembled(prefix, rule, a, year);
    let all_b = assembled(prefix, rule, b, year);
    assert(all_a.subrange(0, body_a.len() as int) =~= body_a);
    assert(all_b.subrange(0, body_b.len() as int) =~= body_b);
}

/// Whether every character of `t` from `from` up to `to` is a digit.
pub open spec fn digits_between(t: Seq<char>, from: int, to: int) -> bool {
    forall|k: int| from <= k < to ==> is_digit(#[trigger] t[k])
}

/// Whether a sequence placeholder is written at position `i` of `t`:
/// `{SEQ}`, or `{SEQ:`, one or more digits, and `}`.
pub open spec fn sequence_placeholder_at(t: Seq<char>, i: int) -> bool {
    &&& 0 <= i && i + 4 < t.len()
    &&& t[i] == '{' && t[i + 1] == 'S' && t[i + 2] == 'E' && t[i + 3] == 'Q'
    &&& (t[i + 4] == '}' || (t[i + 4] == ':' && exists|end: int|
        i + 5 < end < t.len() && #[trigger] digits_between(t, i + 5, end) && t[end] == '}'))
}

/// Whether the token at position `i` of `t` is a sequence placeholder
/// whose width does not fit in 32 bits.
pub open spec fn too_wide_at(t: Seq<char>, i: int) -> bool {
    0 <= i < t.len() && token_at(t, i).0 == Token::Sequence(Width::TooWide)
}

proof fn lemma_name_run(t: Seq<char>, i: int)
    requires
        0 <= i <= t.len(),
    ensures
        i <= name_end(t, i) <= t.len(),
        forall|k: int| i <= k < name_end(t, i) ==> is_name_char(#[trigger] t[k]),
        name_end(t, i) < t.len() ==> !is_name_char(t[name_end(t, i)]),
    decreases t.len() - i,
{
    if i < t.len() && is_name_char(t[i]) {
        lemma_name_run(t, i + 1);
    }
}

proof fn lemma_name_run_ends(t: Seq<char>, i: int, end: int)
    requires
        0 <= i <= end <= t.len(),
        forall|k: int| i <= k < end ==> is_name_char(#[trigger] t[k]),
        end < t.len() ==> !is_name_char(t[end]),
    ensures
        name_end(t, i) == end,
    decreases end - i,
{
    if i < end {
        lemma_name_run_ends(t, i + 1, end);
    }
}

proof fn lemma_digit_run(t: Seq<char>, i: int)
    requires
        0 <= i <= t.len(),
    ensures
        i <= digits_end(t, i) <= t.len(),
        digits_between(t, i, digits_end(t, i)),
        digits_end(t, i) < t.len() ==> !is_digit(t[digits_end(t, i)]),
    decreases t.len() - i,
{
    if i < t.len() && is_digit(t[i]) {
        lemma_digit_run(t, i + 1);
    }
}

proof fn lemma_digit_run_ends(t: Seq<char>, i: int, end: int)
    requires
        0 <= i <= end <= t.len(),
        digits_between(t, i, end),
        end < t.len() ==> !is_digit(t[end]),
    ensures
        digits_end(t, i) == end,
    decreases end - i,
{
    if i < end {
        assert(is_digit(t[i]));
        lemma_digit_run_ends(t, i + 1, end);
    }
}

/// The token at a position is a sequence placeholder exactly where one is
/// written there.
pub proof fn lemma_sequence_token_is_written(t: Seq<char>, i: int)
    requires
        0 <= i < t.len(),
    ensures
        token_at(t, i).0 is Sequence <==> sequence_placeholder_at(t, i),
{
    lemma_name_run(t, i + 1);
    let ne = name_end(t, i + 1);
    if sequence_placeholder_at(t, i) {
        assert(is_name_char(t[i + 1]) && is_name_char(t[i + 2]) && is_name_char(t[i + 3]));
        lemma_name_run_ends(t, i + 1, i + 4);
        assert(t.subrange(i + 1, i + 4) =~= word_seq());
        assert(word_seq() != word_prefix());
        assert(word_seq() != word_year());
        if t[i + 4] == ':' {
            let end = choose|end: int|
                i + 5 < end < t.len() && #[trigger] digits_between(t, i + 5, end) && t[end] == '}';
            lemma_digit_run_ends(t, i + 5, end);
        }
    }
    if token_at(t, i).0 is Sequence {
        let name = t.subrange(i + 1, ne);
        assert(name == word_seq());
        assert(name.len() == 3);
        assert(name[0] == 'S' && name[1] == 'E' && name[2] == 'Q');
        assert(ne == i + 4);
        if t[ne] == ':' {
            lemma_digit_run(t, ne + 1);
            let de = digits_end(t, ne + 1);
            assert(digits_between(t, i + 5, de));
        }
    }
}

/// Every character of a placeholder after its opening brace is no
/// opening brace, so no token begins inside one.
proof fn lemma_no_token_inside(t: Seq<char>, i: int, j: int)
    requires
        0 <= i < t.len(),
        !(token_at(t, i).0 is Literal),
        i < j < token_at(t, i).1,
    ensures
        j < t.len(),
        token_at(t, j).0 is Literal,
{
    lemma_name_run(t, i + 1);
    let ne = name_end(t, i + 1);
    if t[ne] == ':' {
        lemma_digit_run(t, ne + 1);
    }
    if j < ne {
        assert(is_name_char(t[j]));
    } else if j > ne && t[ne] == ':' {
        let de = digits_end(t, ne + 1);
        if j < de {
            assert(is_digit(t[j]));
        }
    }
    assert(t[j] != '{');
}

proof fn lemma_sequence_is_reached(t: Seq<char>, i: int, j: int)
    requires
        0 <= i <= j < t.len(),
        token_at(t, j).0 is Sequence,
    ensures
        has_sequence_from(t, i),
    decreases t.len() - i,
{
    let (token, next) = token_at(t, i);
    if i < j {
        if next > j {
            lemma_no_token_inside(t, i, j);
        } else if !(token is Sequence) {
            lemma_sequence_is_reached(t, next, j);
        }
    }
}

proof fn lemma_reached_sequence_stands(t: Seq<char>, i: int) -> (j: int)
    requires
        0 <= i,
        has_sequence_from(t, i),
    ensures
        i <= j < t.len(),
        token_at(t, j).0 is Sequence,
    decreases t.len() - i,
{
    let (token, next) = token_at(t, i);
    if token is Sequence {
        i
    } else {
        lemma_reached_sequence_stands(t, next)
    }
}

proof fn lemma_wide_is_reached(t: Seq<char>, i: int, j: int, seq_length: u32)
    requires
        0 <= i <= j,
        too_wide_at(t, j),
    ensures
        malformed_from(t, i, seq_length),
    decreases t.len() - i,
{
    let (token, next) = token_at(t, i);
    if i < j {
        if next > j {
            lemma_no_token_inside(t, i, j);
        } else if !(token is Sequence && resolved_width(token->Sequence_0, seq_length) is None) {
            lemma_wide_is_reached(t, next, j, seq_length);
        }
    }
}

proof fn lemma_reached_wide_stands(t: Seq<char>, i: int, seq_length: u32) -> (j: int)
    requires
        0 <= i,
        seq_length >= 1,
        malformed_from(t, i, seq_length),
    ensures
        i <= j,
        too_wide_at(t, j),
    decreases t.len() - i,
{
    let (token, next) = token_at(t, i);
    if token is Sequence && resolved_width(token->Sequence_0, seq_length) is None {
        i
    } else {
        lemma_reached_wide_stands(t, next, seq_length)
    }
}

/// Valid templates. Under a default width of at least one, a template is
/// valid exactly if a sequence placeholder, `{SEQ}` or `{SEQ:w}` with `w`
/// one or more digits, is written somewhere in it, and no sequence
/// placeholder in it names a width beyond 32 bits.
pub proof fn theorem_valid_templates_hold_a_sequence_placeholder(t: Seq<char>, seq_length: u32)
    requires
        seq_length >= 1,
    ensures
        format_is_valid(t, seq_length) <==> (exists|i: int| sequence_placeholder_at(t, i))
            && !(exists|j: int| too_wide_at(t, j)),
{
    if has_sequence_from(t, 0) {
        let j = lemma_reached_sequence_stands(t, 0);
        lemma_sequence_token_is_written(t, j);
        assert(sequence_placeholder_at(t, j));
    }
    if exists|i: int| sequence_placeholder_at(t, i) {
        let i = choose|i: int| sequence_placeholder_at(t, i);
        lemma_sequence_token_is_written(t, i);
        lemma_sequence_is_reached(t, 0, i);
    }
    if malformed_from(t, 0, seq_length) {
        let j = lemma_reached_wide_stands(t, 0, seq_length);
        assert(too_wide_at(t, j));
    }
    if exists|j: int| too_wide_at(t, j) {
        let j = choose|j: int| too_wide_at(t, j);
        lemma_wide_is_reached(t, 0, j, seq_length);
    }
}

} // verus!
