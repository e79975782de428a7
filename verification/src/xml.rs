//! A small XML tokenizer producing the element / text events the skeleton
//! builder consumes.
use vstd::prelude::*;

use crate::error::ValidationError;
use crate::state::Namespace;
use crate::text::{
    after_first_colon, before_first_colon, chars_of, first_colon_at, has_colon,
    lemma_first_colon_unique, string_from_chars,
};

verus! {

/// One parsing event.
#[derive(Debug)]
pub enum XmlEvent {
    /// A start tag (an empty-element tag yields a start and an end event).
    StartElement {
        /// Local name.
        name: String,
        /// Namespace prefix, if the tag name has one.
        prefix: Option<String>,
        /// Namespace URI of the element, when the producer resolved it.
        namespace: Option<String>,
        /// Attributes as written: (qualified name, decoded value).
        attributes: Vec<(String, String)>,
        /// Namespace declarations made on this tag.
        namespace_decls: Vec<Namespace>,
        /// 1-based line of the `<`.
        line: Option<usize>,
        /// 1-based column of the `<`, in characters.
        column: Option<usize>,
    },
    /// An end tag.
    EndElement {
        /// Local name.
        name: String,
        /// Namespace prefix, if any.
        prefix: Option<String>,
    },
    /// Character data with entity references decoded.
    Text(String),
    /// The content of a CDATA section.
    CData(String),
    /// A comment.
    Comment(String),
    /// A processing instruction.
    ProcessingInstruction {
        /// Target name.
        target: String,
        /// Everything after the target, if anything.
        content: Option<String>,
    },
    /// End of input.
    Eof,
}

/// The qualified name `prefix:name` (or `name`).
pub open spec fn qname_of(name: Seq<char>, prefix: Option<Seq<char>>) -> Seq<char> {
    match prefix {
        Some(p) => p + seq![':'] + name,
        None => name,
    }
}

/// The view of an optional string.
pub open spec fn opt_string_view(s: Option<String>) -> Option<Seq<char>> {
    match s {
        Some(x) => Some(x@),
        None => None,
    }
}

/// The stack of open element names after a sequence of events, or `None`
/// when an end tag does not match the innermost open element.
pub open spec fn open_stack(events: Seq<XmlEvent>) -> Option<Seq<Seq<char>>>
    decreases events.len(),
{
    if events.len() == 0 {
        Some(Seq::empty())
    } else {
        match open_stack(events.drop_last()) {
            None => None,
            Some(st) => match events.last() {
                XmlEvent::StartElement { name, prefix, .. } => Some(
                    st.push(qname_of(name@, opt_string_view(prefix))),
                ),
                XmlEvent::EndElement { name, prefix } => if st.len() > 0 && st.last() == qname_of(
                    name@,
                    opt_string_view(prefix),
                ) {
                    Some(st.drop_last())
                } else {
                    None
                },
                _ => Some(st),
            },
        }
    }
}

/// Start and end events are properly nested with matching names, and every
/// element is closed.
pub open spec fn well_nested(events: Seq<XmlEvent>) -> bool {
    open_stack(events) == Some(Seq::<Seq<char>>::empty())
}

/// Character data (text or CDATA) only occurs inside an element.
pub open spec fn text_inside_elements(events: Seq<XmlEvent>) -> bool {
    forall|k: int|
        0 <= k < events.len() && (#[trigger] events[k] is Text || events[k] is CData)
            ==> inside_element(events.take(k))
}

/// Some element is open after the events.
pub open spec fn inside_element(events: Seq<XmlEvent>) -> bool {
    match open_stack(events) {
        Some(st) => st.len() > 0,
        None => false,
    }
}

/// A character that ends a name.
pub open spec fn is_name_stop(c: char) -> bool {
    c == ' ' || c == '\t' || c == '\n' || c == '\r' || c == '<' || c == '>' || c == '/' || c
        == '=' || c == '"' || c == '\'' || c == '&'
}

/// XML whitespace.
pub open spec fn is_space(c: char) -> bool {
    c == ' ' || c == '\t' || c == '\n' || c == '\r'
}

fn space(c: char) -> (r: bool)
    ensures
        r == is_space(c),
{
    c == ' ' || c == '\t' || c == '\n' || c == '\r'
}

fn name_stop(c: char) -> (r: bool)
    ensures
        r == is_name_stop(c),
{
    c == ' ' || c == '\t' || c == '\n' || c == '\r' || c == '<' || c == '>' || c == '/' || c
        == '=' || c == '"' || c == '\'' || c == '&'
}

/// A Unicode scalar value: at most `0x10FFFF` and not a surrogate.
pub open spec fn scalar_ok(u: u32) -> bool {
    u <= 0x10FFFF && !(0xD800 <= u <= 0xDFFF)
}

/// `v[i..]` starts with `pat`.
pub open spec fn at(v: Seq<char>, i: int, pat: Seq<char>) -> bool {
    0 <= i && i + pat.len() <= v.len() && v.subrange(i, i + pat.len()) == pat
}

/// The first name stop at or after `i` (or the end).
pub open spec fn name_end(v: Seq<char>, i: int) -> int
    decreases v.len() - i,
{
    if i < 0 || i >= v.len() || is_name_stop(v[i]) {
        i
    } else {
        name_end(v, i + 1)
    }
}

/// The first non-space at or after `i` (or the end).
pub open spec fn space_end(v: Seq<char>, i: int) -> int
    decreases v.len() - i,
{
    if 0 <= i < v.len() && is_space(v[i]) {
        space_end(v, i + 1)
    } else {
        i
    }
}

/// The position just after the first occurrence of `pat` at or after `i`.
pub open spec fn after_pat(v: Seq<char>, i: int, pat: Seq<char>) -> Option<int>
    decreases v.len() - i,
{
    if i < 0 || i >= v.len() {
        None
    } else if at(v, i, pat) {
        Some(i + pat.len())
    } else {
        after_pat(v, i + 1, pat)
    }
}

/// 1-based line and column of character position `pos` (each saturating).
pub open spec fn line_col_at(v: Seq<char>, pos: int) -> (usize, usize)
    decreases pos,
{
    if pos <= 0 {
        (1, 1)
    } else {
        let (l, c) = line_col_at(v, pos - 1);
        if v[pos - 1] == '\n' {
            (if l < usize::MAX {
                (l + 1) as usize
            } else {
                l
            }, 1)
        } else {
            (l, if c < usize::MAX {
                (c + 1) as usize
            } else {
                c
            })
        }
    }
}

/// A qualified name split at its first `:` into local name and prefix.
pub open spec fn split_q(q: Seq<char>) -> (Seq<char>, Option<Seq<char>>) {
    if has_colon(q) {
        (after_first_colon(q), Some(before_first_colon(q)))
    } else {
        (q, None)
    }
}

/// `char::from_u32`: the character with the given scalar value, if any.
#[verifier::external_body]
fn char_from_scalar(u: u32) -> (r: Option<char>)
    ensures
        match r {
            Some(c) => scalar_ok(u) && c == u as char,
            None => !scalar_ok(u),
        },
{
    char::from_u32(u)
}

/// Whether `v[i..]` starts with `pat`.
fn starts_with_at(v: &Vec<char>, i: usize, pat: &str) -> (r: bool)
    requires
        i <= v@.len(),
    ensures
        r == (i + pat@.len() <= v@.len() && v@.subrange(i as int, i + pat@.len()) == pat@),
{
    let p = chars_of(pat);
    let vl = v.len();
    if p.len() > vl - i {
        return false;
    }
    let mut k: usize = 0;
    while k < p.len()
        invariant
            p@ == pat@,
            i + p@.len() <= v@.len(),
            v@.len() <= usize::MAX,
            k <= p@.len(),
            forall|m: int| 0 <= m < k ==> v@[i + m] == p@[m],
        decreases p@.len() - k,
    {
        if v[i + k] != p[k] {
            assert(v@.subrange(i as int, i + pat@.len())[k as int] != pat@[k as int]);
            return false;
        }
        k = k + 1;
    }
    assert(v@.subrange(i as int, i + pat@.len()) =~= pat@);
    true
}

/// The error for malformed input at character position `pos`.
fn syntax_error(v: &Vec<char>, pos: usize, message: &str) -> (e: ValidationError)
    requires
        pos <= v@.len(),
    ensures
        e matches ValidationError::Syntax { message: m, .. } && m@ == message@,
{
    let (line, column) = line_column(v, pos);
    ValidationError::Syntax { message: String::from_str(message), line, column }
}

/// 1-based line and column of character position `pos`.
fn line_column(v: &Vec<char>, pos: usize) -> (r: (usize, usize))
    requires
        pos <= v@.len(),
    ensures
        r.0 >= 1,
        r.1 >= 1,
        r == line_col_at(v@, pos as int),
{
    let mut line: usize = 1;
    let mut column: usize = 1;
    let mut i: usize = 0;
    while i < pos
        invariant
            i <= pos <= v@.len(),
            1 <= line,
            1 <= column,
            (line, column) == line_col_at(v@, i as int),
        decreases pos - i,
    {
        if v[i] == '\n' {
            if line < usize::MAX {
                line = line + 1;
            }
            column = 1;
        } else if column < usize::MAX {
            column = column + 1;
        }
        i = i + 1;
    }
    (line, column)
}

/// The value of a digit of a character reference.
pub open spec fn digit_value(c: char, hex: bool) -> Option<u32> {
    if '0' <= c <= '9' {
        Some((c as u32 - 48) as u32)
    } else if hex && 'a' <= c <= 'f' {
        Some((c as u32 - 87) as u32)
    } else if hex && 'A' <= c <= 'F' {
        Some((c as u32 - 55) as u32)
    } else {
        None
    }
}

/// The digits of a character reference from `j` up to its `;`: the value
/// read (refused once it passes `0x10FFFF`) and the position of the `;`.
pub open spec fn ref_digits(v: Seq<char>, j: int, hex: bool, value: u32) -> Option<(u32, int)>
    decreases v.len() - j,
{
    if j < 0 || j >= v.len() {
        None
    } else if v[j] == ';' {
        Some((value, j))
    } else {
        match digit_value(v[j], hex) {
            Some(d) => if value > 0x10FFFF {
                None
            } else {
                ref_digits(v, j + 1, hex, (value * (if hex { 16u32 } else { 10u32 }) + d) as u32)
            },
            None => None,
        }
    }
}

/// The entity or character reference at `i`: the character it stands for
/// and the position after its `;`.
pub open spec fn char_ref(v: Seq<char>, i: int) -> Option<(char, int)> {
    if at(v, i, "&lt;"@) {
        Some(('<', i + 4))
    } else if at(v, i, "&gt;"@) {
        Some(('>', i + 4))
    } else if at(v, i, "&amp;"@) {
        Some(('&', i + 5))
    } else if at(v, i, "&quot;"@) {
        Some(('"', i + 6))
    } else if at(v, i, "&apos;"@) {
        Some(('\'', i + 6))
    } else if at(v, i, "&#"@) {
        let hex = i + 2 < v.len() && v[i + 2] == 'x';
        let ds = if hex {
            i + 3
        } else {
            i + 2
        };
        match ref_digits(v, ds, hex, 0) {
            Some((val, j)) => if j == ds || !scalar_ok(val) {
                None
            } else {
                Some((val as char, j + 1))
            },
            None => None,
        }
    } else {
        None
    }
}

/// The digits end at or after where they start.
pub proof fn lemma_ref_digits_ge(v: Seq<char>, j: int, hex: bool, value: u32)
    ensures
        ref_digits(v, j, hex, value) matches Some((_, k)) ==> j <= k < v.len(),
    decreases v.len() - j,
{
    if 0 <= j < v.len() && v[j] != ';' {
        match digit_value(v[j], hex) {
            Some(d) => if value <= 0x10FFFF {
                lemma_ref_digits_ge(v, j + 1, hex, (value * (if hex { 16u32 } else { 10u32 }) + d) as u32);
            },
            None => {},
        }
    }
}

/// A reference ends after it starts.
pub proof fn lemma_char_ref_advances(v: Seq<char>, i: int)
    ensures
        char_ref(v, i) matches Some((_, j)) ==> i < j <= v.len(),
{
    reveal_strlit("&lt;");
    reveal_strlit("&gt;");
    reveal_strlit("&amp;");
    reveal_strlit("&quot;");
    reveal_strlit("&apos;");
    reveal_strlit("&#");
    let hex = i + 2 < v.len() && v[i + 2] == 'x';
    let ds = if hex {
        i + 3
    } else {
        i + 2
    };
    lemma_ref_digits_ge(v, ds, hex, 0);
}

/// The characters of a quoted attribute value from `j` on (closing quote
/// `q`), with references decoded: the value and the position after the
/// closing quote.
pub open spec fn attr_chars(v: Seq<char>, j: int, q: char, out: Seq<char>) -> Option<(Seq<char>, int)>
    decreases v.len() - j,
{
    if j < 0 || j >= v.len() {
        None
    } else if v[j] == q {
        Some((out, j + 1))
    } else if v[j] == '<' {
        None
    } else if v[j] == '&' {
        match char_ref(v, j) {
            Some((c, nx)) => {
                proof {
                    lemma_char_ref_advances(v, j);
                }
                attr_chars(v, nx, q, out.push(c))
            },
            None => None,
        }
    } else {
        attr_chars(v, j + 1, q, out.push(v[j]))
    }
}

/// The quoted attribute value whose opening quote is at `i`: the decoded
/// value and the position after the closing quote.
pub open spec fn attr_value(v: Seq<char>, i: int) -> Option<(Seq<char>, int)> {
    if 0 <= i < v.len() && (v[i] == '"' || v[i] == '\'') {
        attr_chars(v, i + 1, v[i], Seq::empty())
    } else {
        None
    }
}

/// The entity or character reference starting at `v[i] == '&'`.
/// Returns the decoded character and the position after the `;`.
fn decode_reference(v: &Vec<char>, i: usize) -> (r: Result<(char, usize), ValidationError>)
    requires
        i < v@.len(),
    ensures
        r matches Ok((_, j)) ==> i < j <= v@.len(),
        match r {
            Ok((c, j)) => char_ref(v@, i as int) == Some((c, j as int)),
            Err(_) => char_ref(v@, i as int) is None,
        },
        r matches Err(e) ==> e is Syntax,
{
    proof {
        reveal_strlit("&lt;");
        reveal_strlit("&gt;");
        reveal_strlit("&amp;");
        reveal_strlit("&quot;");
        reveal_strlit("&apos;");
        reveal_strlit("&#");
    }
    let _vl = v.len();
    if starts_with_at(v, i, "&lt;") {
        return Ok(('<', i + 4));
    }
    if starts_with_at(v, i, "&gt;") {
        return Ok(('>', i + 4));
    }
    if starts_with_at(v, i, "&amp;") {
        return Ok(('&', i + 5));
    }
    if starts_with_at(v, i, "&quot;") {
        return Ok(('"', i + 6));
    }
    if starts_with_at(v, i, "&apos;") {
        return Ok(('\'', i + 6));
    }
    if starts_with_at(v, i, "&#") {
        let mut j = i + 2;
        let hex = j < v.len() && v[j] == 'x';
        if hex {
            j = j + 1;
        }
        let digits_start = j;
        let mut value: u32 = 0;
        assert(hex == (i + 2 < v@.len() && v@[i + 2] == 'x'));
        let ghost target = match ref_digits(v@, digits_start as int, hex, 0) {
            Some((val, k)) => if k == digits_start || !scalar_ok(val) {
                None
            } else {
                Some((val as char, k + 1))
            },
            None => None,
        };
        assert(char_ref(v@, i as int) == target);
        while j < v.len() && v[j] != ';'
            invariant
                char_ref(v@, i as int) == target,
                target == match ref_digits(v@, digits_start as int, hex, 0) {
                    Some((val, k)) => if k == digits_start || !scalar_ok(val) {
                        None
                    } else {
                        Some((val as char, k + 1))
                    },
                    None => None,
                },
                i + 2 <= digits_start <= j <= v@.len(),
                ref_digits(v@, j as int, hex, value) == ref_digits(v@, digits_start as int, hex, 0),
                value <= 0x10FFFF * 16 + 15,
            decreases v@.len() - j,
        {
            let c = v[j];
            let d: u32 = if '0' <= c && c <= '9' {
                (c as u32) - 48
            } else if hex && 'a' <= c && c <= 'f' {
                (c as u32) - 87
            } else if hex && 'A' <= c && c <= 'F' {
                (c as u32) - 55
            } else {
                return Err(syntax_error(v, j, "invalid character reference"));
            };
            let base: u32 = if hex {
                16
            } else {
                10
            };
            if value > 0x10FFFF {
                return Err(syntax_error(v, j, "character reference out of range"));
            }
            value = value * base + d;
            j = j + 1;
        }
        if j >= v.len() || j == digits_start {
            return Err(syntax_error(v, i, "invalid character reference"));
        }
        match char_from_scalar(value) {
            Some(c) => {
                return Ok((c, j + 1));
            },
            None => {
                return Err(syntax_error(v, i, "character reference to an invalid character"));
            },
        }
    }
    Err(syntax_error(v, i, "undefined entity reference"))
}

/// Reads a name starting at `i`; returns the position after it.
fn scan_name(v: &Vec<char>, i: usize) -> (r: usize)
    requires
        i <= v@.len(),
    ensures
        i <= r <= v@.len(),
        forall|k: int| i <= k < r ==> !#[trigger] is_name_stop(v@[k]),
        r == v@.len() || is_name_stop(v@[r as int]),
        r == name_end(v@, i as int),
{
    let mut j = i;
    while j < v.len() && !name_stop(v[j])
        invariant
            i <= j <= v@.len(),
            forall|k: int| i <= k < j ==> !#[trigger] is_name_stop(v@[k]),
            name_end(v@, j as int) == name_end(v@, i as int),
        decreases v@.len() - j,
    {
        j = j + 1;
    }
    j
}

/// Skips whitespace from `i`.
fn skip_space(v: &Vec<char>, i: usize) -> (r: usize)
    requires
        i <= v@.len(),
    ensures
        i <= r <= v@.len(),
        r == space_end(v@, i as int),
{
    let mut j = i;
    while j < v.len() && space(v[j])
        invariant
            i <= j <= v@.len(),
            space_end(v@, j as int) == space_end(v@, i as int),
        decreases v@.len() - j,
    {
        j = j + 1;
    }
    j
}

/// Splits the qualified name `v[from..to]` at its first `:` into local
/// name and prefix.
fn split_qname(v: &Vec<char>, from: usize, to: usize) -> (r: (String, Option<String>))
    requires
        from <= to <= v@.len(),
    ensures
        qname_of(r.0@, opt_string_view(r.1)) == v@.subrange(from as int, to as int),
        (r.0@, opt_string_view(r.1)) == split_q(v@.subrange(from as int, to as int)),
{
    let mut k = from;
    while k < to && v[k] != ':'
        invariant
            from <= k <= to <= v@.len(),
            forall|m: int| from <= m < k ==> v@[m] != ':',
        decreases to - k,
    {
        k = k + 1;
    }
    let ghost q = v@.subrange(from as int, to as int);
    if k < to {
        let p = string_from_chars(v.as_slice(), from, k);
        let n = string_from_chars(v.as_slice(), k + 1, to);
        proof {
            let f = k - from;
            assert(first_colon_at(q, f as int)) by {
                assert forall|j: int| 0 <= j < f implies q[j] != ':' by {
                    assert(q[j] == v@[from + j]);
                }
            }
            let c = choose|c: int| first_colon_at(q, c);
            lemma_first_colon_unique(q, f as int, c);
            assert(p@ =~= q.subrange(0, f as int));
            assert(n@ =~= q.subrange(f + 1, q.len() as int));
        }
        assert(v@.subrange(from as int, k as int) + seq![':'] + v@.subrange(k + 1, to as int)
            =~= v@.subrange(from as int, to as int));
        (n, Some(p))
    } else {
        proof {
            if has_colon(q) {
                let w = choose|w: int| 0 <= w < q.len() && q[w] == ':';
                assert(v@[from + w] == q[w]);
            }
        }
        (string_from_chars(v.as_slice(), from, to), None)
    }
}

/// Reads a quoted attribute value starting at the quote at `i`; returns the
/// decoded value and the position after the closing quote.
fn scan_attr_value(v: &Vec<char>, i: usize) -> (r: Result<(String, usize), ValidationError>)
    requires
        i < v@.len(),
    ensures
        r matches Ok((_, j)) ==> i < j <= v@.len(),
        match r {
            Ok((s, j)) => attr_value(v@, i as int) == Some((s@, j as int)),
            Err(_) => attr_value(v@, i as int) is None,
        },
        r matches Err(e) ==> e is Syntax,
{
    let _vl = v.len();
    let quote = v[i];
    if quote != '"' && quote != '\'' {
        return Err(syntax_error(v, i, "expected a quoted attribute value"));
    }
    let mut out: Vec<char> = Vec::new();
    let mut j = i + 1;
    while j < v.len() && v[j] != quote
        invariant
            i < j <= v@.len(),
            quote == v@[i as int],
            attr_chars(v@, j as int, quote, out@) == attr_value(v@, i as int),
        decreases v@.len() - j,
    {
        if v[j] == '<' {
            return Err(syntax_error(v, j, "'<' in attribute value"));
        }
        if v[j] == '&' {
            let (c, next) = decode_reference(v, j)?;
            out.push(c);
            j = next;
        } else {
            out.push(v[j]);
            j = j + 1;
        }
    }
    if j >= v.len() {
        return Err(syntax_error(v, i, "unterminated attribute value"));
    }
    Ok((string_from_chars(out.as_slice(), 0, out.len()), j + 1))
}

/// Skips a construct that ends with `end`, starting the search at `i`;
/// returns the position after `end`.
fn skip_until(v: &Vec<char>, i: usize, end: &str, what: &str) -> (r: Result<usize, ValidationError>)
    requires
        i <= v@.len(),
        end@.len() > 0,
    ensures
        r matches Ok(j) ==> i < j <= v@.len(),
        match r {
            Ok(j) => after_pat(v@, i as int, end@) == Some(j as int),
            Err(_) => after_pat(v@, i as int, end@) is None,
        },
        r matches Err(e) ==> e is Syntax,
{
    let mut j = i;
    while j < v.len()
        invariant
            i <= j <= v@.len(),
            end@.len() > 0,
            after_pat(v@, j as int, end@) == after_pat(v@, i as int, end@),
        decreases v@.len() - j,
    {
        if starts_with_at(v, j, end) {
            let e = chars_of(end);
            if e.len() == 0 {
                return Ok(j + 1);
            }
            return Ok(j + e.len());
        }
        j = j + 1;
    }
    Err(syntax_error(v, i, what))
}

/// The stack view of the currently open elements.
pub open spec fn stack_view(st: Seq<String>) -> Seq<Seq<char>> {
    st.map_values(|s: String| s@)
}

/// Appending character data inside an open element keeps the nesting.
proof fn lemma_push_other(events: Seq<XmlEvent>, e: XmlEvent, st: Seq<Seq<char>>)
    requires
        e is Text || e is CData,
        open_stack(events) == Some(st),
        st.len() > 0,
        text_inside_elements(events),
    ensures
        open_stack(events.push(e)) == Some(st),
        text_inside_elements(events.push(e)),
{
    let s2 = events.push(e);
    assert(s2.drop_last() =~= events);
    assert forall|k: int|
        0 <= k < s2.len() && (#[trigger] s2[k] is Text || s2[k] is CData) implies inside_element(
        s2.take(k),
    ) by {
        if k < events.len() {
            assert(s2.take(k) =~= events.take(k));
            assert(events[k] == s2[k]);
        } else {
            assert(s2.take(k) =~= events);
        }
    }
}

/// What an event says, as plain values.
pub enum EventView {
    /// A start tag.
    Start {
        /// Local name.
        name: Seq<char>,
        /// Prefix.
        prefix: Option<Seq<char>>,
        /// Namespace URI.
        namespace: Option<Seq<char>>,
        /// Attributes as written.
        attributes: Seq<(Seq<char>, Seq<char>)>,
        /// Namespace declarations (prefix, URI).
        namespace_decls: Seq<(Seq<char>, Seq<char>)>,
        /// Line.
        line: Option<usize>,
        /// Column.
        column: Option<usize>,
    },
    /// An end tag.
    End {
        /// Local name.
        name: Seq<char>,
        /// Prefix.
        prefix: Option<Seq<char>>,
    },
    /// Character data.
    Text(Seq<char>),
    /// A CDATA section.
    CData(Seq<char>),
    /// A comment.
    Comment(Seq<char>),
    /// A processing instruction.
    ProcessingInstruction {
        /// Target.
        target: Seq<char>,
        /// Content.
        content: Option<Seq<char>>,
    },
    /// End of input.
    Eof,
}

/// An attribute list as plain values.
pub open spec fn attrs_view(a: Seq<(String, String)>) -> Seq<(Seq<char>, Seq<char>)> {
    a.map_values(|p: (String, String)| (p.0@, p.1@))
}

/// The plain-value view of an event.
pub open spec fn event_view(e: XmlEvent) -> EventView {
    match e {
        XmlEvent::StartElement { name, prefix, namespace, attributes, namespace_decls, line, column } => EventView::Start {
            name: name@,
            prefix: opt_string_view(prefix),
            namespace: opt_string_view(namespace),
            attributes: attrs_view(attributes@),
            namespace_decls: namespace_decls@.map_values(|d: Namespace| (d.prefix@, d.uri@)),
            line,
            column,
        },
        XmlEvent::EndElement { name, prefix } => EventView::End { name: name@, prefix: opt_string_view(prefix) },
        XmlEvent::Text(t) => EventView::Text(t@),
        XmlEvent::CData(t) => EventView::CData(t@),
        XmlEvent::Comment(t) => EventView::Comment(t@),
        XmlEvent::ProcessingInstruction { target, content } => EventView::ProcessingInstruction {
            target: target@,
            content: opt_string_view(content),
        },
        XmlEvent::Eof => EventView::Eof,
    }
}

/// The plain-value views of a list of events.
pub open spec fn events_view(s: Seq<XmlEvent>) -> Seq<EventView> {
    s.map_values(|e: XmlEvent| event_view(e))
}

/// Where a markup declaration (`<!...>`, brackets nested) scanned from `j`
/// at bracket depth `depth` closes: the position of its `>`.
pub open spec fn decl_close(v: Seq<char>, j: int, depth: int) -> Option<int>
    decreases v.len() - j,
{
    if j < 0 || j >= v.len() {
        None
    } else if v[j] == '>' && depth == 0 {
        Some(j)
    } else {
        decl_close(
            v,
            j + 1,
            if v[j] == '[' {
                depth + 1
            } else if v[j] == ']' && depth > 0 {
                depth - 1
            } else {
                depth
            },
        )
    }
}

/// Scanning never moves backwards or past the end.
pub proof fn lemma_scans(v: Seq<char>, i: int)
    requires
        0 <= i <= v.len(),
    ensures
        i <= name_end(v, i) <= v.len(),
        i <= space_end(v, i) <= v.len(),
    decreases v.len() - i,
{
    if i < v.len() {
        lemma_scans(v, i + 1);
    }
}

/// A search ends past the pattern and within the input.
pub proof fn lemma_after_pat(v: Seq<char>, i: int, pat: Seq<char>)
    ensures
        after_pat(v, i, pat) matches Some(j) ==> i + pat.len() <= j <= v.len(),
    decreases v.len() - i,
{
    if 0 <= i < v.len() && !at(v, i, pat) {
        lemma_after_pat(v, i + 1, pat);
    }
}

/// A declaration closes at or after where its scan starts.
pub proof fn lemma_decl_close(v: Seq<char>, j: int, depth: int)
    ensures
        decl_close(v, j, depth) matches Some(k) ==> j <= k < v.len(),
    decreases v.len() - j,
{
    if 0 <= j < v.len() && !(v[j] == '>' && depth == 0) {
        lemma_decl_close(
            v,
            j + 1,
            if v[j] == '[' {
                depth + 1
            } else if v[j] == ']' && depth > 0 {
                depth - 1
            } else {
                depth
            },
        );
    }
}

/// An attribute value ends after its opening quote and within the input.
pub proof fn lemma_attr_chars(v: Seq<char>, j: int, q: char, out: Seq<char>)
    ensures
        attr_chars(v, j, q, out) matches Some((_, k)) ==> j < k <= v.len(),
    decreases v.len() - j,
{
    if 0 <= j < v.len() && v[j] != q && v[j] != '<' {
        if v[j] == '&' {
            lemma_char_ref_advances(v, j);
            match char_ref(v, j) {
                Some((c, nx)) => lemma_attr_chars(v, nx, q, out.push(c)),
                None => {},
            }
        } else {
            lemma_attr_chars(v, j + 1, q, out.push(v[j]));
        }
    }
}

/// The rest of a start tag from `j` on: its attributes (after `attrs`),
/// the position after the tag, and whether it is an empty-element tag.
pub open spec fn tag_rest(v: Seq<char>, j: int, attrs: Seq<(Seq<char>, Seq<char>)>) -> Option<
    (Seq<(Seq<char>, Seq<char>)>, int, bool),
>
    decreases v.len() - j,
{
    if j < 0 || j >= v.len() {
        None
    } else if v[j] == '>' {
        Some((attrs, j + 1, false))
    } else if v[j] == '/' {
        if j + 1 < v.len() && v[j + 1] == '>' {
            Some((attrs, j + 2, true))
        } else {
            None
        }
    } else {
        let an = name_end(v, j);
        let k = space_end(v, an);
        if an == j || k >= v.len() || v[k] != '=' {
            None
        } else {
            let k2 = space_end(v, k + 1);
            if k2 >= v.len() {
                None
            } else {
                match attr_value(v, k2) {
                    Some((val, after)) => {
                        proof {
                            lemma_scans(v, j);
                            lemma_scans(v, an);
                            lemma_scans(v, k + 1);
                            lemma_attr_chars(v, k2 + 1, v[k2], Seq::empty());
                            lemma_scans(v, after);
                        }
                        tag_rest(v, space_end(v, after), attrs.push((v.subrange(j, an), val)))
                    },
                    None => None,
                }
            }
        }
    }
}

/// A start tag ends after where its rest starts and within the input.
pub proof fn lemma_tag_rest(v: Seq<char>, j: int, attrs: Seq<(Seq<char>, Seq<char>)>)
    ensures
        tag_rest(v, j, attrs) matches Some((_, k, _)) ==> j < k <= v.len(),
    decreases v.len() - j,
{
    if 0 <= j < v.len() && v[j] != '>' && v[j] != '/' {
        let an = name_end(v, j);
        let k = space_end(v, an);
        lemma_scans(v, j);
        lemma_scans(v, an);
        if an != j && k < v.len() && v[k] == '=' {
            let k2 = space_end(v, k + 1);
            lemma_scans(v, k + 1);
            if k2 < v.len() {
                match attr_value(v, k2) {
                    Some((val, after)) => {
                        lemma_attr_chars(v, k2 + 1, v[k2], Seq::empty());
                        lemma_scans(v, after);
                        lemma_tag_rest(v, space_end(v, after), attrs.push((v.subrange(j, an), val)));
                    },
                    None => {},
                }
            }
        }
    }
}

/// The tokenizer's state between constructs.
pub struct Lexed {
    /// Events produced so far.
    pub events: Seq<EventView>,
    /// Qualified names of the open elements.
    pub stack: Seq<Seq<char>>,
    /// Whether the root element has started.
    pub seen_root: bool,
    /// Character data not yet emitted.
    pub text: Seq<char>,
}

/// The state with pending character data emitted as a text event.
pub open spec fn flushed(s: Lexed) -> Lexed {
    if s.text.len() > 0 {
        Lexed { events: s.events.push(EventView::Text(s.text)), text: Seq::empty(), ..s }
    } else {
        s
    }
}

/// A start event produced by the tokenizer.
pub open spec fn start_view(q: Seq<char>, attrs: Seq<(Seq<char>, Seq<char>)>, line: usize, column: usize) -> EventView {
    EventView::Start {
        name: split_q(q).0,
        prefix: split_q(q).1,
        namespace: None,
        attributes: attrs,
        namespace_decls: Seq::empty(),
        line: Some(line),
        column: Some(column),
    }
}

/// An end event for a qualified name.
pub open spec fn end_view(q: Seq<char>) -> EventView {
    EventView::End { name: split_q(q).0, prefix: split_q(q).1 }
}

/// The events of the input from position `i` on, given the state so far;
/// `None` when the input is not a well-formed document. Comments,
/// processing instructions and markup declarations (before the root) are
/// skipped; whitespace outside the root is dropped; character data and
/// references inside elements become text events, emitted at the next tag;
/// an empty-element tag gives a start and an end event.
pub open spec fn lex(v: Seq<char>, i: int, s: Lexed) -> Option<Seq<EventView>>
    decreases v.len() - i,
{
    if i < 0 {
        None
    } else if i >= v.len() {
        if s.stack.len() == 0 && s.seen_root {
            Some(s.events)
        } else {
            None
        }
    } else if v[i] == '<' {
        let s1 = flushed(s);
        if at(v, i, "<!--"@) {
            match after_pat(v, i + 4, "-->"@) {
                Some(j) => {
                    proof {
                        lemma_after_pat(v, i + 4, "-->"@);
                    }
                    lex(v, j, s1)
                },
                None => None,
            }
        } else if at(v, i, "<?"@) {
            match after_pat(v, i + 2, "?>"@) {
                Some(j) => {
                    proof {
                        lemma_after_pat(v, i + 2, "?>"@);
                    }
                    lex(v, j, s1)
                },
                None => None,
            }
        } else if at(v, i, "<![CDATA["@) {
            if s1.stack.len() == 0 {
                None
            } else {
                match after_pat(v, i + 9, "]]>"@) {
                    Some(e) => {
                        proof {
                            lemma_after_pat(v, i + 9, "]]>"@);
                        }
                        lex(
                            v,
                            e,
                            Lexed {
                                events: s1.events.push(
                                    EventView::CData(
                                        v.subrange(
                                            i + 9,
                                            if e - (i + 9) >= 3 {
                                                e - 3
                                            } else {
                                                i + 9
                                            },
                                        ),
                                    ),
                                ),
                                ..s1
                            },
                        )
                    },
                    None => None,
                }
            }
        } else if at(v, i, "<!"@) {
            if s1.seen_root {
                None
            } else {
                match decl_close(v, i + 2, 0) {
                    Some(j) => {
                        proof {
                            lemma_decl_close(v, i + 2, 0);
                        }
                        lex(v, j + 1, s1)
                    },
                    None => None,
                }
            }
        } else if at(v, i, "</"@) {
            let ne = name_end(v, i + 2);
            let k = space_end(v, ne);
            let q = v.subrange(i + 2, ne);
            if ne == i + 2 || k >= v.len() || v[k] != '>' || s1.stack.len() == 0 || s1.stack.last()
                != q {
                None
            } else {
                proof {
                    lemma_scans(v, i + 2);
                    lemma_scans(v, ne);
                }
                lex(
                    v,
                    k + 1,
                    Lexed {
                        events: s1.events.push(end_view(q)),
                        stack: s1.stack.drop_last(),
                        ..s1
                    },
                )
            }
        } else {
            let ne = name_end(v, i + 1);
            if (s1.stack.len() == 0 && s1.seen_root) || ne == i + 1 {
                None
            } else {
                match tag_rest(v, space_end(v, ne), Seq::empty()) {
                    Some((attrs, j, empty)) => {
                        proof {
                            lemma_scans(v, i + 1);
                            lemma_scans(v, ne);
                            lemma_tag_rest(v, space_end(v, ne), Seq::empty());
                        }
                        let q = v.subrange(i + 1, ne);
                        let lc = line_col_at(v, i);
                        let st = start_view(q, attrs, lc.0, lc.1);
                        if empty {
                            lex(
                                v,
                                j,
                                Lexed {
                                    events: s1.events.push(st).push(end_view(q)),
                                    seen_root: true,
                                    ..s1
                                },
                            )
                        } else {
                            lex(
                                v,
                                j,
                                Lexed {
                                    events: s1.events.push(st),
                                    stack: s1.stack.push(q),
                                    seen_root: true,
                                    ..s1
                                },
                            )
                        }
                    },
                    None => None,
                }
            }
        }
    } else if v[i] == '&' {
        if s.stack.len() == 0 {
            None
        } else {
            match char_ref(v, i) {
                Some((ch, nx)) => {
                    proof {
                        lemma_char_ref_advances(v, i);
                    }
                    lex(v, nx, Lexed { text: s.text.push(ch), ..s })
                },
                None => None,
            }
        }
    } else if s.stack.len() == 0 {
        if is_space(v[i]) {
            lex(v, i + 1, s)
        } else {
            None
        }
    } else {
        lex(v, i + 1, Lexed { text: s.text.push(v[i]), ..s })
    }
}

/// The events of a whole document, or `None` when it is not well formed.
pub open spec fn tokens(v: Seq<char>) -> Option<Seq<EventView>> {
    lex(v, 0, Lexed { events: Seq::empty(), stack: Seq::empty(), seen_root: false, text: Seq::empty() })
}

/// Appending a start tag pushes its qualified name.
proof fn lemma_push_start(events: Seq<XmlEvent>, e: XmlEvent, st: Seq<Seq<char>>)
    requires
        open_stack(events) == Some(st),
        text_inside_elements(events),
        e is StartElement,
    ensures
        ({
            let s2 = events.push(e);
            &&& open_stack(s2) == match e {
                XmlEvent::StartElement { name, prefix, .. } => Some(
                    st.push(qname_of(name@, opt_string_view(prefix))),
                ),
                _ => None,
            }
            &&& text_inside_elements(s2)
        }),
{
    let s2 = events.push(e);
    assert(s2.drop_last() =~= events);
    assert forall|k: int|
        0 <= k < s2.len() && (#[trigger] s2[k] is Text || s2[k] is CData) implies inside_element(
        s2.take(k),
    ) by {
        assert(k < events.len());
        assert(s2.take(k) =~= events.take(k));
        assert(events[k] == s2[k]);
    }
}

/// Appending an end tag that matches the innermost open element pops it.
proof fn lemma_push_end(
    events: Seq<XmlEvent>,
    name: String,
    prefix: Option<String>,
    st: Seq<Seq<char>>,
)
    requires
        open_stack(events) == Some(st),
        st.len() > 0,
        st.last() == qname_of(name@, opt_string_view(prefix)),
        text_inside_elements(events),
    ensures
        ({
            let s2 = events.push(XmlEvent::EndElement { name, prefix });
            &&& open_stack(s2) == Some(st.drop_last())
            &&& text_inside_elements(s2)
        }),
{
    let e = XmlEvent::EndElement { name, prefix };
    let s2 = events.push(e);
    assert(s2.drop_last() =~= events);
    assert forall|k: int|
        0 <= k < s2.len() && (#[trigger] s2[k] is Text || s2[k] is CData) implies inside_element(
        s2.take(k),
    ) by {
        assert(k < events.len());
        assert(s2.take(k) =~= events.take(k));
        assert(events[k] == s2[k]);
    }
}

/// Tokenizes a whole document: the events are exactly those [`tokens`]
/// gives, and it fails exactly when the input is not well formed in its
/// sense. On success the events are well nested, every element is closed,
/// and text occurs only inside elements. Comments and processing
/// instructions are skipped, and namespaces are not resolved: start events
/// carry no namespace URI and no declarations (`xmlns` attributes stay among
/// the attributes).
#[verifier::rlimit(100)]
#[verifier::spinoff_prover]
pub fn parse_events(xml: &str) -> (r: Result<Vec<XmlEvent>, ValidationError>)
    ensures
        r matches Ok(events) ==> well_nested(events@) && text_inside_elements(events@),
        match r {
            Ok(events) => tokens(xml@) == Some(events_view(events@)),
            Err(_) => tokens(xml@) is None,
        },
        r matches Err(e) ==> e is Syntax,
{
    proof {
        reveal_strlit("<!--");
        reveal_strlit("<?");
        reveal_strlit("<![CDATA[");
        reveal_strlit("<!");
        reveal_strlit("</");
        reveal_strlit("-->");
        reveal_strlit("?>");
        reveal_strlit("]]>");
    }
    let v = chars_of(xml);
    let n = v.len();
    let mut events: Vec<XmlEvent> = Vec::new();
    let mut stack: Vec<String> = Vec::new();
    let mut seen_root = false;
    let mut i: usize = 0;
    let mut text: Vec<char> = Vec::new();
    proof {
        assert(events_view(events@) =~= Seq::<EventView>::empty());
        assert(stack_view(stack@) =~= Seq::<Seq<char>>::empty());
    }
    while i < n
        invariant
            n == v@.len(),
            v@ == xml@,
            i <= n,
            open_stack(events@) == Some(stack_view(stack@)),
            text_inside_elements(events@),
            stack@.len() == 0 ==> text@.len() == 0,
            lex(
                v@,
                i as int,
                Lexed {
                    events: events_view(events@),
                    stack: stack_view(stack@),
                    seen_root,
                    text: text@,
                },
            ) == tokens(xml@),
        decreases n - i,
    {
        proof {
            reveal_strlit("<!--");
            reveal_strlit("<?");
            reveal_strlit("<![CDATA[");
            reveal_strlit("<!");
            reveal_strlit("</");
            reveal_strlit("-->");
            reveal_strlit("?>");
            reveal_strlit("]]>");
        }
        let ghost s0 = Lexed {
            events: events_view(events@),
            stack: stack_view(stack@),
            seen_root,
            text: text@,
        };
        let ghost i0 = i as int;
        let c = v[i];
        if c == '<' {
            if text.len() > 0 {
                let t = string_from_chars(text.as_slice(), 0, text.len());
                let ev = XmlEvent::Text(t);
                proof {
                    lemma_push_other(events@, ev, stack_view(stack@));
                    assert(t@ =~= text@);
                    assert(events_view(events@.push(ev)) =~= events_view(events@).push(EventView::Text(text@)));
                }
                events.push(ev);
                text = Vec::new();
            }
            let ghost s1 = Lexed {
                events: events_view(events@),
                stack: stack_view(stack@),
                seen_root,
                text: text@,
            };
            assert(s1 == flushed(s0));
            if starts_with_at(&v, i, "<!--") {
                let j = skip_until(&v, i + 4, "-->", "unterminated comment")?;
                assert(lex(v@, i0, s0) == lex(v@, j as int, s1));
                i = j;
            } else if starts_with_at(&v, i, "<?") {
                let j = skip_until(&v, i + 2, "?>", "unterminated processing instruction")?;
                assert(lex(v@, i0, s0) == lex(v@, j as int, s1));
                i = j;
            } else if starts_with_at(&v, i, "<![CDATA[") {
                if stack.len() == 0 {
                    return Err(syntax_error(&v, i, "CDATA section outside the root element"));
                }
                let start = i + 9;
                let end_pos = skip_until(&v, start, "]]>", "unterminated CDATA section")?;
                let content_end = if end_pos - start >= 3 {
                    end_pos - 3
                } else {
                    start
                };
                let t = string_from_chars(v.as_slice(), start, content_end);
                let ev = XmlEvent::CData(t);
                proof {
                    lemma_push_other(events@, ev, stack_view(stack@));
                    assert(events_view(events@.push(ev)) =~= events_view(events@).push(EventView::CData(t@)));
                }
                events.push(ev);
                assert(lex(v@, i0, s0) == lex(v@, end_pos as int, Lexed { events: events_view(events@), ..s1 }));
                i = end_pos;
            } else if starts_with_at(&v, i, "<!") {
                if seen_root {
                    return Err(syntax_error(&v, i, "markup declaration after the root element"));
                }
                let mut depth: usize = 0;
                let mut j = i + 2;
                while j < n && !(v[j] == '>' && depth == 0)
                    invariant
                        n == v@.len(),
                        i < j <= n,
                        depth <= j,
                        decl_close(v@, j as int, depth as int) == decl_close(v@, i + 2, 0),
                    decreases n - j,
                {
                    if v[j] == '[' {
                        depth = depth + 1;
                    } else if v[j] == ']' && depth > 0 {
                        depth = depth - 1;
                    }
                    j = j + 1;
                }
                if j >= n {
                    return Err(syntax_error(&v, i, "unterminated markup declaration"));
                }
                assert(lex(v@, i0, s0) == lex(v@, j + 1, s1));
                i = j + 1;
            } else if starts_with_at(&v, i, "</") {
                let name_start = i + 2;
                let name_end = scan_name(&v, name_start);
                if name_end == name_start {
                    return Err(syntax_error(&v, i, "missing end tag name"));
                }
                let k = skip_space(&v, name_end);
                if k >= n || v[k] != '>' {
                    return Err(syntax_error(&v, i, "malformed end tag"));
                }
                let (name, prefix) = split_qname(&v, name_start, name_end);
                if stack.len() == 0 {
                    return Err(syntax_error(&v, i, "end tag without a matching start tag"));
                }
                let ghost stack_before = stack@;
                let top = stack.pop().unwrap();
                let q = string_from_chars(v.as_slice(), name_start, name_end);
                proof {
                    assert(stack_before =~= stack@.push(top));
                    assert(stack_view(stack_before).last() == top@);
                }
                if !crate::text::str_eq(top.as_str(), q.as_str()) {
                    return Err(syntax_error(&v, i, "end tag does not match the open element"));
                }
                proof {
                    let old_st = stack_view(stack_before);
                    assert(stack_view(stack@) =~= old_st.drop_last());
                    lemma_push_end(events@, name, prefix, old_st);
                    assert(events_view(events@.push(XmlEvent::EndElement { name, prefix }))
                        =~= events_view(events@).push(end_view(q@)));
                }
                events.push(XmlEvent::EndElement { name, prefix });
                assert(lex(v@, i0, s0) == lex(
                    v@,
                    k + 1,
                    Lexed { events: events_view(events@), stack: stack_view(stack@), ..s1 },
                ));
                i = k + 1;
            } else {
                if stack.len() == 0 && seen_root {
                    return Err(syntax_error(&v, i, "content after the root element"));
                }
                let name_start = i + 1;
                let name_end = scan_name(&v, name_start);
                if name_end == name_start {
                    return Err(syntax_error(&v, i, "missing element name"));
                }
                let (line, column) = line_column(&v, i);
                let mut attributes: Vec<(String, String)> = Vec::new();
                let mut j = skip_space(&v, name_end);
                let mut closed = false;
                let mut empty = false;
                let ghost target = tag_rest(v@, space_end(v@, name_end as int), Seq::empty());
                proof {
                    assert(attrs_view(attributes@) =~= Seq::<(Seq<char>, Seq<char>)>::empty());
                    assert(target is None ==> tokens(xml@) is None);
                }
                while j < n && !closed
                    invariant
                        n == v@.len(),
                        name_end <= j <= n,
                        !closed ==> tag_rest(v@, j as int, attrs_view(attributes@)) == target,
                        !closed ==> !empty,
                        closed ==> target == Some((attrs_view(attributes@), j as int, empty)),
                        target is None ==> tokens(xml@) is None,
                    decreases n - j,
                {
                    if v[j] == '>' {
                        closed = true;
                        j = j + 1;
                    } else if v[j] == '/' {
                        if j + 1 < n && v[j + 1] == '>' {
                            closed = true;
                            empty = true;
                            j = j + 2;
                        } else {
                            return Err(syntax_error(&v, j, "malformed empty-element tag"));
                        }
                    } else {
                        let an_end = scan_name(&v, j);
                        if an_end == j {
                            return Err(syntax_error(&v, j, "malformed attribute"));
                        }
                        let k = skip_space(&v, an_end);
                        if k >= n || v[k] != '=' {
                            return Err(syntax_error(&v, j, "attribute without a value"));
                        }
                        let k = skip_space(&v, k + 1);
                        if k >= n {
                            return Err(syntax_error(&v, j, "attribute without a value"));
                        }
                        let (value, after) = scan_attr_value(&v, k)?;
                        let an = string_from_chars(v.as_slice(), j, an_end);
                        let ghost before = attrs_view(attributes@);
                        attributes.push((an, value));
                        proof {
                            assert(attrs_view(attributes@) =~= before.push((an@, value@)));
                        }
                        j = skip_space(&v, after);
                    }
                }
                if !closed {
                    return Err(syntax_error(&v, i, "unterminated start tag"));
                }
                let (name, prefix) = split_qname(&v, name_start, name_end);
                let q = string_from_chars(v.as_slice(), name_start, name_end);
                let ghost qv = q@;
                let ghost st0 = stack_view(stack@);
                let ghost av = attrs_view(attributes@);
                let ev = XmlEvent::StartElement {
                    name,
                    prefix,
                    namespace: None,
                    attributes,
                    namespace_decls: Vec::new(),
                    line: Some(line),
                    column: Some(column),
                };
                proof {
                    lemma_push_start(events@, ev, stack_view(stack@));
                    assert(event_view(ev) == start_view(qv, av, line, column)) by {
                        assert(Seq::<Namespace>::empty().map_values(|d: Namespace| (d.prefix@, d.uri@))
                            =~= Seq::<(Seq<char>, Seq<char>)>::empty());
                    }
                }
                if empty {
                    let (name2, prefix2) = split_qname(&v, name_start, name_end);
                    let ghost ev0 = events@;
                    events.push(ev);
                    proof {
                        lemma_push_end(events@, name2, prefix2, st0.push(qv));
                        assert(st0.push(qv).drop_last() =~= st0);
                    }
                    events.push(XmlEvent::EndElement { name: name2, prefix: prefix2 });
                    proof {
                        assert(events_view(events@) =~= events_view(ev0).push(start_view(qv, av, line, column)).push(end_view(qv)));
                    }
                    assert(lex(v@, i0, s0) == lex(
                        v@,
                        j as int,
                        Lexed { events: events_view(events@), seen_root: true, ..s1 },
                    ));
                } else {
                    let ghost ev0 = events@;
                    events.push(ev);
                    let ghost old_stack = stack@;
                    stack.push(q);
                    proof {
                        assert(stack_view(stack@) =~= stack_view(old_stack).push(qv));
                        assert(events_view(events@) =~= events_view(ev0).push(start_view(qv, av, line, column)));
                    }
                    assert(lex(v@, i0, s0) == lex(
                        v@,
                        j as int,
                        Lexed {
                            events: events_view(events@),
                            stack: stack_view(stack@),
                            seen_root: true,
                            ..s1
                        },
                    ));
                }
                seen_root = true;
                i = j;
            }
        } else if c == '&' {
            if stack.len() == 0 {
                return Err(syntax_error(&v, i, "reference outside the root element"));
            }
            let (ch, next) = decode_reference(&v, i)?;
            text.push(ch);
            assert(lex(v@, i0, s0) == lex(v@, next as int, Lexed { text: text@, ..s0 }));
            i = next;
        } else {
            if stack.len() == 0 {
                if !space(c) {
                    return Err(syntax_error(&v, i, "text outside the root element"));
                }
            } else {
                text.push(c);
            }
            i = i + 1;
        }
    }
    if stack.len() > 0 {
        return Err(syntax_error(&v, n, "unclosed element"));
    }
    if !seen_root {
        return Err(syntax_error(&v, n, "no root element"));
    }
    assert(stack_view(stack@) =~= Seq::<Seq<char>>::empty());
    Ok(events)
}

} // verus!
