//! Character-level string helpers shared by the validators.
use vstd::prelude::*;

verus! {

/// The part of a qualified name after its last `:` (the whole name when it
/// has none).
pub open spec fn local_part(s: Seq<char>) -> Seq<char>
    decreases s.len(),
{
    if s.len() == 0 {
        s
    } else if s.last() == ':' {
        Seq::empty()
    } else {
        local_part(s.drop_last()).push(s.last())
    }
}

/// Whether `s` contains a `:`.
pub open spec fn has_colon(s: Seq<char>) -> bool {
    exists|i: int| 0 <= i < s.len() && s[i] == ':'
}

/// Appends one character to a string (`String::push`).
#[verifier::external_body]
fn push_char(s: &mut String, c: char)
    ensures
        final(s)@ == old(s)@.push(c),
{
    s.push(c);
}

/// The characters of a string slice, in order.
pub fn chars_of(s: &str) -> (v: Vec<char>)
    ensures
        v@ == s@,
{
    let mut v: Vec<char> = Vec::new();
    for c in it: s.chars()
        invariant
            v@ == it.seq().take(it.index() as int),
    {
        v.push(c);
    }
    v
}

/// A string holding the characters `v[from..to]`.
pub fn string_from_chars(v: &[char], from: usize, to: usize) -> (s: String)
    requires
        from <= to <= v@.len(),
    ensures
        s@ == v@.subrange(from as int, to as int),
{
    let mut s = String::new();
    let mut i = from;
    while i < to
        invariant
            from <= i <= to <= v@.len(),
            s@ == v@.subrange(from as int, i as int),
        decreases to - i,
    {
        push_char(&mut s, v[i]);
        i = i + 1;
        assert(s@ =~= v@.subrange(from as int, i as int));
    }
    s
}

/// Character-wise equality of two string slices.
pub fn str_eq(a: &str, b: &str) -> (r: bool)
    ensures
        r == (a@ == b@),
{
    let x = chars_of(a);
    let y = chars_of(b);
    if x.len() != y.len() {
        return false;
    }
    let mut i: usize = 0;
    while i < x.len()
        invariant
            x@ == a@,
            y@ == b@,
            x@.len() == y@.len(),
            i <= x@.len(),
            forall|k: int| 0 <= k < i ==> x@[k] == y@[k],
        decreases x@.len() - i,
    {
        if x[i] != y[i] {
            return false;
        }
        i = i + 1;
    }
    assert(x@ =~= y@);
    true
}

/// `local_part` of a prefix extends by the next character.
proof fn lemma_local_part_step(s: Seq<char>, i: int)
    requires
        0 <= i < s.len(),
    ensures
        local_part(s.subrange(0, i + 1)) == if s[i] == ':' {
            Seq::<char>::empty()
        } else {
            local_part(s.subrange(0, i)).push(s[i])
        },
{
    let t = s.subrange(0, i + 1);
    assert(t.drop_last() =~= s.subrange(0, i));
}

/// The part of a qualified name after its last `:`.
pub fn local_name(s: &str) -> (r: String)
    ensures
        r@ == local_part(s@),
{
    let v = chars_of(s);
    let mut start: usize = 0;
    let mut i: usize = 0;
    while i < v.len()
        invariant
            v@ == s@,
            start <= i <= v@.len(),
            local_part(v@.subrange(0, i as int)) == v@.subrange(start as int, i as int),
        decreases v@.len() - i,
    {
        proof {
            lemma_local_part_step(v@, i as int);
        }
        if v[i] == ':' {
            start = i + 1;
        }
        i = i + 1;
        assert(v@.subrange(start as int, i as int) =~= if v@[i - 1] == ':' {
            Seq::<char>::empty()
        } else {
            v@.subrange(start as int, i - 1).push(v@[i - 1])
        });
    }
    assert(v@.subrange(0, v@.len() as int) =~= v@);
    string_from_chars(v.as_slice(), start, v.len())
}

/// Splits a qualified name at its first `:` into prefix and local part.
pub fn split_once_colon(s: &str) -> (r: Option<(String, String)>)
    ensures
        match r {
            None => !has_colon(s@),
            Some((p, l)) => has_colon(s@) && exists|i: int|
                0 <= i < s@.len() && s@[i] == ':' && (forall|j: int| 0 <= j < i ==> s@[j] != ':')
                    && p@ == s@.subrange(0, i) && l@ == s@.subrange(i + 1, s@.len() as int),
        },
{
    let v = chars_of(s);
    let mut i: usize = 0;
    while i < v.len()
        invariant
            v@ == s@,
            i <= v@.len(),
            forall|j: int| 0 <= j < i ==> v@[j] != ':',
        decreases v@.len() - i,
    {
        if v[i] == ':' {
            let p = string_from_chars(v.as_slice(), 0, i);
            let l = string_from_chars(v.as_slice(), i + 1, v.len());
            return Some((p, l));
        }
        i = i + 1;
    }
    None
}

/// Whether the string contains a `:`.
pub fn contains_colon(s: &str) -> (r: bool)
    ensures
        r == has_colon(s@),
{
    split_once_colon(s).is_some()
}

} // verus!

verus! {

/// `i` is the position of the first `:` in `s`.
pub open spec fn first_colon_at(s: Seq<char>, i: int) -> bool {
    0 <= i < s.len() && s[i] == ':' && forall|j: int| 0 <= j < i ==> s[j] != ':'
}

/// The part after the first `:` (meaningful when `s` has one).
pub open spec fn after_first_colon(s: Seq<char>) -> Seq<char> {
    let i = choose|i: int| first_colon_at(s, i);
    s.subrange(i + 1, s.len() as int)
}

/// The part before the first `:` (meaningful when `s` has one).
pub open spec fn before_first_colon(s: Seq<char>) -> Seq<char> {
    let i = choose|i: int| first_colon_at(s, i);
    s.subrange(0, i)
}

/// The first `:` is unique.
pub proof fn lemma_first_colon_unique(s: Seq<char>, i: int, j: int)
    requires
        first_colon_at(s, i),
        first_colon_at(s, j),
    ensures
        i == j,
{
    if i < j {
        assert(s[i] != ':');
    }
    if j < i {
        assert(s[j] != ':');
    }
}

/// Splits at the first `:`: `Some((prefix, local))`, or `None` without one.
pub fn split_first_colon(s: &str) -> (r: Option<(String, String)>)
    ensures
        match r {
            None => !has_colon(s@),
            Some((p, l)) => has_colon(s@) && p@ == before_first_colon(s@) && l@ == after_first_colon(
                s@,
            ) && p@.len() + l@.len() + 1 == s@.len(),
        },
{
    let r = split_once_colon(s);
    proof {
        if let Some((p, l)) = &r {
            let i = choose|i: int|
                0 <= i < s@.len() && s@[i] == ':' && (forall|j: int| 0 <= j < i ==> s@[j] != ':')
                    && p@ == s@.subrange(0, i) && l@ == s@.subrange(i + 1, s@.len() as int);
            assert(first_colon_at(s@, i));
            let c = choose|c: int| first_colon_at(s@, c);
            lemma_first_colon_unique(s@, i, c);
        }
    }
    r
}

/// Unicode `White_Space` (what `char::is_whitespace` accepts).
pub open spec fn is_unicode_ws(c: char) -> bool {
    let u = c as u32;
    ||| 0x09 <= u <= 0x0D
    ||| u == 0x20
    ||| u == 0x85
    ||| u == 0xA0
    ||| u == 0x1680
    ||| 0x2000 <= u <= 0x200A
    ||| u == 0x2028
    ||| u == 0x2029
    ||| u == 0x202F
    ||| u == 0x205F
    ||| u == 0x3000
}

/// Nothing but whitespace (so trimming leaves nothing).
pub open spec fn blank(s: Seq<char>) -> bool {
    forall|i: int| 0 <= i < s.len() ==> #[trigger] is_unicode_ws(s[i])
}

/// Whether a character is Unicode whitespace.
pub fn is_whitespace_char(c: char) -> (r: bool)
    ensures
        r == is_unicode_ws(c),
{
    let u = c as u32;
    (0x09 <= u && u <= 0x0D) || u == 0x20 || u == 0x85 || u == 0xA0 || u == 0x1680 || (0x2000
        <= u && u <= 0x200A) || u == 0x2028 || u == 0x2029 || u == 0x202F || u == 0x205F || u
        == 0x3000
}

/// Whether a string is empty after trimming whitespace.
pub fn is_blank(s: &str) -> (r: bool)
    ensures
        r == blank(s@),
{
    let v = chars_of(s);
    let mut i: usize = 0;
    while i < v.len()
        invariant
            v@ == s@,
            i <= v@.len(),
            forall|k: int| 0 <= k < i ==> #[trigger] is_unicode_ws(v@[k]),
        decreases v@.len() - i,
    {
        if !is_whitespace_char(v[i]) {
            return false;
        }
        i = i + 1;
    }
    true
}

/// `s` with leading whitespace removed.
pub open spec fn trim_start(s: Seq<char>) -> Seq<char>
    decreases s.len(),
{
    if s.len() > 0 && is_unicode_ws(s[0]) {
        trim_start(s.subrange(1, s.len() as int))
    } else {
        s
    }
}

/// `s` with trailing whitespace removed.
pub open spec fn trim_end(s: Seq<char>) -> Seq<char>
    decreases s.len(),
{
    if s.len() > 0 && is_unicode_ws(s.last()) {
        trim_end(s.drop_last())
    } else {
        s
    }
}

/// `s` with leading and trailing whitespace removed (`str::trim`).
pub open spec fn trim(s: Seq<char>) -> Seq<char> {
    trim_end(trim_start(s))
}

/// Removes leading and trailing whitespace.
pub fn trim_str(s: &str) -> (r: String)
    ensures
        r@ == trim(s@),
{
    let v = chars_of(s);
    let n = v.len();
    let mut i: usize = 0;
    proof {
        assert(v@.subrange(0, n as int) =~= v@);
    }
    while i < n && is_whitespace_char(v[i])
        invariant
            v@ == s@,
            n == v@.len(),
            i <= n,
            trim_start(s@) == trim_start(v@.subrange(i as int, n as int)),
        decreases n - i,
    {
        proof {
            let t = v@.subrange(i as int, n as int);
            assert(t.subrange(1, t.len() as int) =~= v@.subrange(i + 1, n as int));
        }
        i = i + 1;
    }
    proof {
        if i < n {
            assert(!is_unicode_ws(v@.subrange(i as int, n as int)[0]));
        }
    }
    let mut j: usize = n;
    while j > i && is_whitespace_char(v[j - 1])
        invariant
            v@ == s@,
            n == v@.len(),
            i <= j <= n,
            trim(s@) == trim_end(v@.subrange(i as int, j as int)),
        decreases j - i,
    {
        proof {
            assert(v@.subrange(i as int, j as int).drop_last() =~= v@.subrange(i as int, j - 1));
        }
        j = j - 1;
    }
    proof {
        let t = v@.subrange(i as int, j as int);
        if j > i {
            assert(!is_unicode_ws(t.last()));
        }
    }
    string_from_chars(v.as_slice(), i, j)
}

/// `p` is a prefix of `s`.
pub open spec fn starts_with(s: Seq<char>, p: Seq<char>) -> bool {
    p.len() <= s.len() && s.subrange(0, p.len() as int) == p
}

/// `s` without the prefix `p`, when it starts with `p`.
pub fn strip_prefix_str(s: &str, p: &str) -> (r: Option<String>)
    ensures
        match r {
            Some(t) => starts_with(s@, p@) && t@ == s@.subrange(p@.len() as int, s@.len() as int),
            None => !starts_with(s@, p@),
        },
{
    let v = chars_of(s);
    let w = chars_of(p);
    if w.len() > v.len() {
        return None;
    }
    let mut i: usize = 0;
    while i < w.len()
        invariant
            v@ == s@,
            w@ == p@,
            w@.len() <= v@.len(),
            i <= w@.len(),
            forall|k: int| 0 <= k < i ==> v@[k] == w@[k],
        decreases w@.len() - i,
    {
        if v[i] != w[i] {
            proof {
                assert(v@.subrange(0, w@.len() as int)[i as int] != w@[i as int]);
            }
            return None;
        }
        i = i + 1;
    }
    proof {
        assert(v@.subrange(0, w@.len() as int) =~= w@);
    }
    Some(string_from_chars(v.as_slice(), w.len(), v.len()))
}

/// The pieces of `s` between occurrences of `c` (`str::split`): one more
/// piece than there are separators, empty pieces included.
pub open spec fn split_on(s: Seq<char>, c: char) -> Seq<Seq<char>>
    decreases s.len(),
{
    if s.len() == 0 {
        seq![Seq::empty()]
    } else {
        let p = split_on(s.drop_last(), c);
        if s.last() == c {
            p.push(Seq::empty())
        } else {
            p.update(p.len() - 1, p.last().push(s.last()))
        }
    }
}

/// Splitting always yields at least one piece.
pub proof fn lemma_split_nonempty(s: Seq<char>, c: char)
    ensures
        split_on(s, c).len() >= 1,
    decreases s.len(),
{
    if s.len() > 0 {
        lemma_split_nonempty(s.drop_last(), c);
    }
}

/// The views of a list of strings.
pub open spec fn strings_view(v: Seq<String>) -> Seq<Seq<char>> {
    v.map_values(|s: String| s@)
}

/// Splits `s` at every `c`.
pub fn split_char(s: &str, c: char) -> (r: Vec<String>)
    ensures
        strings_view(r@) == split_on(s@, c),
{
    let v = chars_of(s);
    let mut out: Vec<String> = Vec::new();
    let mut cur = String::new();
    let mut i: usize = 0;
    while i < v.len()
        invariant
            v@ == s@,
            i <= v@.len(),
            strings_view(out@).push(cur@) == split_on(v@.subrange(0, i as int), c),
        decreases v@.len() - i,
    {
        let ghost prev = split_on(v@.subrange(0, i as int), c);
        proof {
            lemma_split_nonempty(v@.subrange(0, i as int), c);
            assert(v@.subrange(0, i + 1).drop_last() =~= v@.subrange(0, i as int));
        }
        if v[i] == c {
            let done = cur;
            out.push(done);
            cur = String::new();
            proof {
                assert(strings_view(out@) =~= prev);
                assert(strings_view(out@).push(cur@) =~= prev.push(Seq::empty()));
            }
        } else {
            let ghost old_out = strings_view(out@);
            push_char(&mut cur, v[i]);
            proof {
                assert(old_out.push(cur@) =~= prev.update(prev.len() - 1, prev.last().push(v@[i as int])));
            }
        }
        i = i + 1;
    }
    out.push(cur);
    proof {
        assert(v@.subrange(0, v@.len() as int) =~= v@);
    }
    out
}


/// The words found so far in `s` and the word being read at its end.
pub open spec fn ws_scan(s: Seq<char>) -> (Seq<Seq<char>>, Seq<char>)
    decreases s.len(),
{
    if s.len() == 0 {
        (Seq::empty(), Seq::empty())
    } else {
        let (w, cur) = ws_scan(s.drop_last());
        if is_unicode_ws(s.last()) {
            if cur.len() > 0 {
                (w.push(cur), Seq::empty())
            } else {
                (w, Seq::empty())
            }
        } else {
            (w, cur.push(s.last()))
        }
    }
}

/// The whitespace-separated words of `s` (`str::split_whitespace`).
pub open spec fn ws_words(s: Seq<char>) -> Seq<Seq<char>> {
    let (w, cur) = ws_scan(s);
    if cur.len() > 0 {
        w.push(cur)
    } else {
        w
    }
}

/// Splits `s` into its whitespace-separated words.
pub fn split_whitespace_str(s: &str) -> (r: Vec<String>)
    ensures
        strings_view(r@) == ws_words(s@),
{
    let v = chars_of(s);
    let mut out: Vec<String> = Vec::new();
    let mut cur = String::new();
    let mut i: usize = 0;
    while i < v.len()
        invariant
            v@ == s@,
            i <= v@.len(),
            (strings_view(out@), cur@) == ws_scan(v@.subrange(0, i as int)),
        decreases v@.len() - i,
    {
        proof {
            assert(v@.subrange(0, i + 1).drop_last() =~= v@.subrange(0, i as int));
        }
        let ghost prev = strings_view(out@);
        if is_whitespace_char(v[i]) {
            if cur.unicode_len() > 0 {
                let done = cur;
                out.push(done);
                cur = String::new();
                proof {
                    assert(strings_view(out@) =~= prev.push(done@));
                }
            } else {
                cur = String::new();
            }
        } else {
            push_char(&mut cur, v[i]);
        }
        i = i + 1;
    }
    proof {
        assert(v@.subrange(0, v@.len() as int) =~= v@);
    }
    if cur.unicode_len() > 0 {
        let ghost prev = strings_view(out@);
        let c = cur;
        out.push(c);
        proof {
            assert(strings_view(out@) =~= prev.push(c@));
        }
    }
    out
}

} // verus!
