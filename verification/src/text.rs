//! Character-level helpers: ASCII case folding, Unicode whitespace trimming
//! and the module/export name normalisation used by every lookup.

use vstd::prelude::*;

verus! {

/// Appends `c` to `s` (std `String::push`).
#[verifier::external_body]
pub(crate) fn string_push(s: &mut String, c: char)
    ensures
        final(s)@ == old(s)@.push(c),
{
    s.push(c);
}

/// The characters of `s`, in order.
pub fn chars_of(s: &str) -> (v: Vec<char>)
    ensures
        v@ == s@,
{
    let n = s.unicode_len();
    let mut v: Vec<char> = Vec::new();
    let mut i: usize = 0;
    while i < n
        invariant
            n == s@.len(),
            i <= n,
            v@ == s@.subrange(0, i as int),
        decreases n - i,
    {
        let c = s.get_char(i);
        v.push(c);
        i = i + 1;
    }
    v
}

/// A `String` holding exactly the characters of `cs`.
pub fn string_from_chars(cs: &[char]) -> (s: String)
    ensures
        s@ == cs@,
{
    let mut s = String::new();
    let mut i: usize = 0;
    while i < cs.len()
        invariant
            i <= cs@.len(),
            s@ == cs@.subrange(0, i as int),
        decreases cs@.len() - i,
    {
        string_push(&mut s, cs[i]);
        i = i + 1;
    }
    s
}

/// ASCII lower-case of one character; every other character is unchanged.
pub open spec fn ascii_lower(c: char) -> char {
    if 'A' <= c && c <= 'Z' {
        ((c as u32) + 32) as char
    } else {
        c
    }
}

/// ASCII lower-case of a character sequence.
pub open spec fn lower_seq(s: Seq<char>) -> Seq<char> {
    s.map_values(|c: char| ascii_lower(c))
}

pub fn ascii_lower_char(c: char) -> (r: char)
    ensures
        r == ascii_lower(c),
{
    if 'A' <= c && c <= 'Z' {
        let b: u8 = c as u8;
        let r = (b + 32) as char;
        r
    } else {
        c
    }
}


/// `char::is_whitespace`: the Unicode `White_Space` code points.
pub open spec fn is_ws(c: char) -> bool {
    ||| c == '\t'
    ||| c == '\n'
    ||| c == '\u{0B}'
    ||| c == '\u{0C}'
    ||| c == '\r'
    ||| c == ' '
    ||| c == '\u{85}'
    ||| c == '\u{A0}'
    ||| c == '\u{1680}'
    ||| ('\u{2000}' <= c && c <= '\u{200A}')
    ||| c == '\u{2028}'
    ||| c == '\u{2029}'
    ||| c == '\u{202F}'
    ||| c == '\u{205F}'
    ||| c == '\u{3000}'
}

pub fn is_ws_char(c: char) -> (r: bool)
    ensures
        r == is_ws(c),
{
    c == '\t' || c == '\n' || c == '\u{0B}' || c == '\u{0C}' || c == '\r' || c == ' ' || c
        == '\u{85}' || c == '\u{A0}' || c == '\u{1680}' || ('\u{2000}' <= c && c <= '\u{200A}')
        || c == '\u{2028}' || c == '\u{2029}' || c == '\u{202F}' || c == '\u{205F}' || c
        == '\u{3000}'
}

/// `s` without its leading whitespace.
pub open spec fn trim_start_seq(s: Seq<char>) -> Seq<char>
    decreases s.len(),
{
    if s.len() > 0 && is_ws(s[0]) {
        trim_start_seq(s.drop_first())
    } else {
        s
    }
}

/// `s` without its trailing whitespace.
pub open spec fn trim_end_seq(s: Seq<char>) -> Seq<char>
    decreases s.len(),
{
    if s.len() > 0 && is_ws(s.last()) {
        trim_end_seq(s.drop_last())
    } else {
        s
    }
}

/// `str::trim`: `s` without leading and trailing whitespace.
pub open spec fn trim_seq(s: Seq<char>) -> Seq<char> {
    trim_end_seq(trim_start_seq(s))
}

/// The part of `s` after the last occurrence of `sep`, or all of `s` when
/// `sep` does not occur (`rsplit_once(sep).map(|(_, b)| b).unwrap_or(s)`).
pub open spec fn after_last(s: Seq<char>, sep: char) -> Seq<char>
    decreases s.len(),
{
    if s.len() == 0 {
        s
    } else if s.last() == sep {
        Seq::empty()
    } else {
        after_last(s.drop_last(), sep).push(s.last())
    }
}

/// `s` with `suffix` removed when it ends with it, else `s` itself.
pub open spec fn strip_suffix_seq(s: Seq<char>, suffix: Seq<char>) -> Seq<char> {
    if suffix.len() <= s.len() && s.subrange(s.len() - suffix.len(), s.len() as int) == suffix {
        s.subrange(0, s.len() - suffix.len())
    } else {
        s
    }
}

/// True when `s` begins with `prefix`.
pub open spec fn has_prefix(s: Seq<char>, prefix: Seq<char>) -> bool {
    prefix.len() <= s.len() && s.subrange(0, prefix.len() as int) == prefix
}

/// The `.dll` file-name suffix.
pub open spec fn dll_suffix() -> Seq<char> {
    seq!['.', 'd', 'l', 'l']
}

/// Registry key of a module name: trimmed, ASCII lower-cased, reduced to
/// its last `\` and `/` path component, with one `.dll` suffix removed.
pub open spec fn normalized_module(name: Seq<char>) -> Seq<char> {
    strip_suffix_seq(after_last(after_last(lower_seq(trim_seq(name)), '\\'), '/'), dll_suffix())
}

/// Lookup key of an export name: trimmed and ASCII lower-cased.
pub open spec fn normalized_export(name: Seq<char>) -> Seq<char> {
    lower_seq(trim_seq(name))
}

/// True when `s` ends with `suffix`.
pub open spec fn has_suffix(s: Seq<char>, suffix: Seq<char>) -> bool {
    suffix.len() <= s.len() && s.subrange(s.len() - suffix.len(), s.len() as int) == suffix
}

/// No ASCII upper-case letter occurs in `s`.
pub open spec fn no_ascii_upper(s: Seq<char>) -> bool {
    forall|i: int| 0 <= i < s.len() ==> !('A' <= #[trigger] s[i] && s[i] <= 'Z')
}

proof fn lemma_ascii_lower_char(c: char)
    ensures
        !('A' <= ascii_lower(c) && ascii_lower(c) <= 'Z'),
        is_ws(ascii_lower(c)) == is_ws(c),
        !('A' <= c && c <= 'Z') ==> ascii_lower(c) == c,
{
}

proof fn lemma_lower_seq(s: Seq<char>)
    ensures
        no_ascii_upper(lower_seq(s)),
        lower_seq(s).len() == s.len(),
        forall|i: int| 0 <= i < s.len() ==> is_ws(#[trigger] lower_seq(s)[i]) == is_ws(s[i]),
        no_ascii_upper(s) ==> lower_seq(s) == s,
{
    assert forall|i: int| 0 <= i < s.len() implies !('A' <= #[trigger] lower_seq(s)[i] && lower_seq(s)[i] <= 'Z')
        && is_ws(lower_seq(s)[i]) == is_ws(s[i]) by {
        lemma_ascii_lower_char(s[i]);
    }
    if no_ascii_upper(s) {
        assert forall|i: int| 0 <= i < s.len() implies #[trigger] lower_seq(s)[i] == s[i] by {
            lemma_ascii_lower_char(s[i]);
        }
        assert(lower_seq(s) =~= s);
    }
}

/// What follows the last `sep` is a suffix of `s` without `sep`.
proof fn lemma_after_last(s: Seq<char>, sep: char)
    ensures
        after_last(s, sep).len() <= s.len(),
        after_last(s, sep) == s.subrange(s.len() - after_last(s, sep).len(), s.len() as int),
        !after_last(s, sep).contains(sep),
        !s.contains(sep) ==> after_last(s, sep) == s,
    decreases s.len(),
{
    if s.len() > 0 {
        lemma_after_last(s.drop_last(), sep);
        let r = after_last(s, sep);
        if s.last() == sep {
            assert(r =~= s.subrange(s.len() as int, s.len() as int));
        } else {
            let p = after_last(s.drop_last(), sep);
            assert(r =~= s.subrange(s.len() - r.len(), s.len() as int));
            assert forall|i: int| 0 <= i < r.len() implies r[i] != sep by {
                if i < p.len() {
                    assert(r[i] == p[i]);
                }
            }
            if !s.contains(sep) {
                assert forall|i: int| 0 <= i < s.len() - 1 implies s.drop_last()[i] != sep by {
                    assert(s.drop_last()[i] == s[i]);
                }
                assert(r =~= s);
            }
        }
    } else {
        assert(after_last(s, sep) =~= s.subrange(0, 0));
    }
}

/// A subrange keeps the absence of upper-case letters and of a character.
proof fn lemma_subrange_keeps(s: Seq<char>, i: int, j: int, c: char)
    requires
        0 <= i <= j <= s.len(),
    ensures
        no_ascii_upper(s) ==> no_ascii_upper(s.subrange(i, j)),
        !s.contains(c) ==> !s.subrange(i, j).contains(c),
{
    let t = s.subrange(i, j);
    assert forall|k: int| 0 <= k < t.len() implies #[trigger] t[k] == s[i + k] by {}
    if !s.contains(c) {
        assert forall|k: int| 0 <= k < t.len() implies t[k] != c by {
            assert(t[k] == s[i + k]);
        }
    }
}

/// A sequence with no whitespace at either end is its own trim.
proof fn lemma_trim_fixed(s: Seq<char>)
    requires
        s.len() > 0 ==> !is_ws(s[0]) && !is_ws(s.last()),
    ensures
        trim_seq(s) == s,
{
}

/// What `str::trim` leaves has no whitespace at either end.
proof fn lemma_trim_ends(s: Seq<char>)
    ensures
        trim_seq(s).len() > 0 ==> !is_ws(trim_seq(s)[0]) && !is_ws(trim_seq(s).last()),
{
    lemma_trim_start(s);
    lemma_trim_end(trim_start_seq(s));
}

proof fn lemma_trim_start(s: Seq<char>)
    ensures
        trim_start_seq(s).len() > 0 ==> !is_ws(trim_start_seq(s)[0]),
    decreases s.len(),
{
    if s.len() > 0 && is_ws(s[0]) {
        lemma_trim_start(s.drop_first());
    }
}

proof fn lemma_trim_end(s: Seq<char>)
    ensures
        trim_end_seq(s).len() > 0 ==> !is_ws(trim_end_seq(s).last()),
        trim_end_seq(s).len() <= s.len(),
        trim_end_seq(s) == s.subrange(0, trim_end_seq(s).len() as int),
    decreases s.len(),
{
    if s.len() > 0 && is_ws(s.last()) {
        lemma_trim_end(s.drop_last());
        assert(trim_end_seq(s) =~= s.subrange(0, trim_end_seq(s).len() as int));
    } else {
        assert(s =~= s.subrange(0, s.len() as int));
    }
}

/// A registry key of a module (what [`normalize_module_name`] gives)
/// holds no ASCII upper-case letter and no path separator (`\` or `/`).
pub proof fn law_module_key_shape(name: Seq<char>)
    ensures
        no_ascii_upper(normalized_module(name)),
        !normalized_module(name).contains('\\'),
        !normalized_module(name).contains('/'),
{
    let l = lower_seq(trim_seq(name));
    lemma_lower_seq(trim_seq(name));
    let a = after_last(l, '\\');
    lemma_after_last(l, '\\');
    lemma_subrange_keeps(l, l.len() - a.len(), l.len() as int, '\\');
    let b = after_last(a, '/');
    lemma_after_last(a, '/');
    lemma_subrange_keeps(a, a.len() - b.len(), a.len() as int, '\\');
    lemma_subrange_keeps(b, 0, b.len() as int, '/');
    if dll_suffix().len() <= b.len() {
        lemma_subrange_keeps(b, 0, b.len() - dll_suffix().len(), '/');
        lemma_subrange_keeps(b, 0, b.len() - dll_suffix().len(), '\\');
    }
}

/// Normalising a registry key again ([`normalize_module_name`] of its own
/// result) gives the same key, unless the key
/// still has whitespace at an end (`"a\\ b"` gives `" b"`) or ends in
/// `.dll` itself (`"a.dll.dll"` gives `"a.dll"`).
pub proof fn law_module_key_idempotent(name: Seq<char>)
    requires
        trim_seq(normalized_module(name)) == normalized_module(name),
        !has_suffix(normalized_module(name), dll_suffix()),
    ensures
        normalized_module(normalized_module(name)) == normalized_module(name),
{
    let n = normalized_module(name);
    law_module_key_shape(name);
    lemma_lower_seq(n);
    lemma_after_last(n, '\\');
    lemma_after_last(n, '/');
}

/// ASCII upper-case of one character; every other character is unchanged.
pub open spec fn ascii_upper(c: char) -> char {
    if 'a' <= c && c <= 'z' {
        ((c as u32) - 32) as char
    } else {
        c
    }
}

/// ASCII upper-case of a character sequence.
pub open spec fn upper_seq(s: Seq<char>) -> Seq<char> {
    s.map_values(|c: char| ascii_upper(c))
}

proof fn lemma_ascii_upper_char(c: char)
    ensures
        is_ws(ascii_upper(c)) == is_ws(c),
        ascii_lower(ascii_upper(c)) == ascii_lower(c),
{
}

proof fn lemma_trim_start_upper(s: Seq<char>)
    ensures
        trim_start_seq(upper_seq(s)) == upper_seq(trim_start_seq(s)),
    decreases s.len(),
{
    if s.len() > 0 {
        lemma_ascii_upper_char(s[0]);
        assert(upper_seq(s)[0] == ascii_upper(s[0]));
        if is_ws(s[0]) {
            assert(upper_seq(s).drop_first() =~= upper_seq(s.drop_first()));
            lemma_trim_start_upper(s.drop_first());
        }
    }
}

proof fn lemma_trim_end_upper(s: Seq<char>)
    ensures
        trim_end_seq(upper_seq(s)) == upper_seq(trim_end_seq(s)),
    decreases s.len(),
{
    if s.len() > 0 {
        lemma_ascii_upper_char(s.last());
        assert(upper_seq(s).last() == ascii_upper(s.last()));
        if is_ws(s.last()) {
            assert(upper_seq(s).drop_last() =~= upper_seq(s.drop_last()));
            lemma_trim_end_upper(s.drop_last());
        }
    }
}

/// A module name and its ASCII upper-case form give the same registry key
/// ([`normalize_module_name`] ignores ASCII case).
pub proof fn law_module_key_ignores_case(name: Seq<char>)
    ensures
        normalized_module(upper_seq(name)) == normalized_module(name),
{
    lemma_trim_start_upper(name);
    lemma_trim_end_upper(trim_start_seq(name));
    let t = trim_seq(name);
    assert(trim_seq(upper_seq(name)) == upper_seq(t));
    assert forall|i: int| 0 <= i < t.len() implies #[trigger] lower_seq(upper_seq(t))[i] == lower_seq(t)[i] by {
        lemma_ascii_upper_char(t[i]);
    }
    assert(lower_seq(upper_seq(t)) =~= lower_seq(t));
}

proof fn lemma_trim_start_append(p: Seq<char>, s: Seq<char>)
    requires
        p.len() > 0,
        !is_ws(p.last()),
    ensures
        trim_start_seq(p + s) == trim_start_seq(p) + s,
        trim_start_seq(p).len() > 0,
        trim_start_seq(p).last() == p.last(),
    decreases p.len(),
{
    assert((p + s)[0] == p[0]);
    if is_ws(p[0]) {
        assert(p.len() > 1);
        assert((p + s).drop_first() =~= p.drop_first() + s);
        assert(p.drop_first().last() == p.last());
        lemma_trim_start_append(p.drop_first(), s);
    }
}

proof fn lemma_lower_append(a: Seq<char>, b: Seq<char>)
    ensures
        lower_seq(a + b) == lower_seq(a) + lower_seq(b),
{
    assert(lower_seq(a + b) =~= lower_seq(a) + lower_seq(b));
}

proof fn lemma_after_last_append(a: Seq<char>, b: Seq<char>, sep: char)
    requires
        !b.contains(sep),
    ensures
        after_last(a + b, sep) == after_last(a, sep) + b,
    decreases b.len(),
{
    if b.len() == 0 {
        assert(a + b =~= a);
        assert(after_last(a, sep) + b =~= after_last(a, sep));
    } else {
        assert(!b.drop_last().contains(sep)) by {
            assert forall|i: int| 0 <= i < b.drop_last().len() implies b.drop_last()[i] != sep by {
                assert(b.drop_last()[i] == b[i]);
            }
        }
        assert(b.last() != sep) by {
            assert(b[b.len() - 1] == b.last());
        }
        assert((a + b).drop_last() =~= a + b.drop_last());
        assert((a + b).last() == b.last());
        lemma_after_last_append(a, b.drop_last(), sep);
        assert(after_last(a, sep) + b =~= (after_last(a, sep) + b.drop_last()).push(b.last()));
    }
}

proof fn lemma_lower_keeps_absent(s: Seq<char>, sep: char)
    requires
        !s.contains(sep),
        !('A' <= sep && sep <= 'Z'),
        !('a' <= sep && sep <= 'z'),
    ensures
        !lower_seq(s).contains(sep),
{
    assert forall|i: int| 0 <= i < s.len() implies lower_seq(s)[i] != sep by {
        lemma_ascii_lower_char(s[i]);
        assert(s[i] != sep);
    }
}

/// A module name without directory gives the same registry key under any
/// directory: [`normalize_module_name`] of `dir + name`, where `dir` ends
/// in a path separator, is that of `name`, for a `name` with no separator
/// and no surrounding whitespace.
pub proof fn law_module_key_ignores_directory(dir: Seq<char>, name: Seq<char>)
    requires
        dir.len() > 0,
        dir.last() == '\\' || dir.last() == '/',
        trim_seq(name) == name,
        !name.contains('\\'),
        !name.contains('/'),
    ensures
        normalized_module(dir + name) == normalized_module(name),
{
    let x = dir + name;
    lemma_trim_start_append(dir, name);
    let ts = trim_start_seq(dir);
    let y = ts + name;
    lemma_trim_ends(name);
    if name.len() > 0 {
        assert(y.last() == name.last());
    } else {
        assert(y =~= ts);
    }
    assert(trim_end_seq(y) == y);
    assert(trim_seq(x) == y);
    lemma_lower_append(ts, name);
    let ln = lower_seq(name);
    lemma_lower_keeps_absent(name, '\\');
    lemma_lower_keeps_absent(name, '/');
    let lt = lower_seq(ts);
    assert(lt.last() == ascii_lower(ts.last()));
    assert(lt.last() == dir.last());
    lemma_after_last_append(lt, ln, '\\');
    lemma_after_last(ln, '\\');
    lemma_after_last(ln, '/');
    if dir.last() == '\\' {
        assert(after_last(lt, '\\') =~= Seq::<char>::empty());
        assert(after_last(lower_seq(y), '\\') =~= ln);
    } else {
        let c = after_last(lt, '\\');
        assert(c == after_last(lt.drop_last(), '\\').push(lt.last()));
        lemma_after_last_append(c, ln, '/');
        assert(after_last(c, '/') =~= Seq::<char>::empty());
        assert(after_last(after_last(lower_seq(y), '\\'), '/') =~= ln);
    }
    assert(trim_seq(name) == name);
}

/// Normalising an export name twice ([`normalize_export_name`] of its own
/// result) gives what normalising it once does.
pub proof fn law_export_key_idempotent(name: Seq<char>)
    ensures
        normalized_export(normalized_export(name)) == normalized_export(name),
{
    let t = trim_seq(name);
    let n = lower_seq(t);
    lemma_trim_ends(name);
    lemma_lower_seq(t);
    if n.len() > 0 {
        assert(is_ws(n[0]) == is_ws(t[0]));
        assert(is_ws(n[n.len() - 1]) == is_ws(t[t.len() - 1]));
    }
    lemma_trim_fixed(n);
    lemma_lower_seq(n);
}

/// `s` trimmed of Unicode whitespace at both ends.
pub fn trim_chars(s: &[char]) -> (r: Vec<char>)
    ensures
        r@ == trim_seq(s@),
{
    let n = s.len();
    let mut i: usize = 0;
    assert(s@.subrange(0, n as int) =~= s@);
    while i < n && is_ws_char(s[i])
        invariant
            n == s@.len(),
            i <= n,
            trim_start_seq(s@) == trim_start_seq(s@.subrange(i as int, n as int)),
        decreases n - i,
    {
        assert(s@.subrange(i as int, n as int).drop_first() =~= s@.subrange(i + 1, n as int));
        i = i + 1;
    }
    let ghost mid = s@.subrange(i as int, n as int);
    assert(trim_start_seq(s@) == mid);
    let mut j: usize = n;
    while j > i && is_ws_char(s[j - 1])
        invariant
            n == s@.len(),
            i <= j <= n,
            mid == s@.subrange(i as int, n as int),
            trim_end_seq(mid) == trim_end_seq(s@.subrange(i as int, j as int)),
        decreases j,
    {
        assert(s@.subrange(i as int, j as int).drop_last() =~= s@.subrange(i as int, j - 1));
        j = j - 1;
    }
    let mut r: Vec<char> = Vec::new();
    let mut k: usize = i;
    while k < j
        invariant
            i <= k <= j <= n,
            n == s@.len(),
            r@ == s@.subrange(i as int, k as int),
        decreases j - k,
    {
        r.push(s[k]);
        k = k + 1;
    }
    r
}

/// ASCII lower-case of every character of `s`.
pub fn lower_chars(s: &[char]) -> (r: Vec<char>)
    ensures
        r@ == lower_seq(s@),
{
    let mut r: Vec<char> = Vec::new();
    let mut i: usize = 0;
    while i < s.len()
        invariant
            i <= s@.len(),
            r@ =~= lower_seq(s@.subrange(0, i as int)),
        decreases s@.len() - i,
    {
        let c = ascii_lower_char(s[i]);
        r.push(c);
        i = i + 1;
        assert(lower_seq(s@.subrange(0, i as int)) =~= lower_seq(s@.subrange(0, i - 1)).push(c));
    }
    assert(s@.subrange(0, s@.len() as int) =~= s@);
    r
}

/// The part of `s` after the last `sep` (all of `s` if there is none).
pub fn after_last_chars(s: &[char], sep: char) -> (r: Vec<char>)
    ensures
        r@ == after_last(s@, sep),
{
    let n = s.len();
    let mut j: usize = n;
    assert(s@.subrange(0, n as int) =~= s@);
    assert(s@ + s@.subrange(n as int, n as int) =~= s@);
    while j > 0 && s[j - 1] != sep
        invariant
            j <= n == s@.len(),
            after_last(s@, sep) == after_last(s@.subrange(0, j as int), sep) + s@.subrange(
                j as int,
                n as int,
            ),
        decreases j,
    {
        let ghost pre = s@.subrange(0, j as int);
        assert(pre.drop_last() =~= s@.subrange(0, j - 1));
        assert(s@.subrange(j - 1, n as int) =~= seq![pre.last()] + s@.subrange(j as int, n as int));
        assert(after_last(pre, sep) == after_last(pre.drop_last(), sep).push(pre.last()));
        assert(after_last(pre.drop_last(), sep).push(pre.last()) + s@.subrange(j as int, n as int)
            =~= after_last(pre.drop_last(), sep) + s@.subrange(j - 1, n as int));
        j = j - 1;
    }
    assert(after_last(s@.subrange(0, j as int), sep) =~= Seq::<char>::empty());
    let mut r: Vec<char> = Vec::new();
    let mut k: usize = j;
    while k < n
        invariant
            j <= k <= n == s@.len(),
            r@ == s@.subrange(j as int, k as int),
        decreases n - k,
    {
        r.push(s[k]);
        k = k + 1;
    }
    assert(after_last(s@, sep) =~= r@);
    r
}

/// True when `s` begins with `prefix`.
pub fn starts_with_chars(s: &[char], prefix: &[char]) -> (r: bool)
    ensures
        r == has_prefix(s@, prefix@),
{
    if prefix.len() > s.len() {
        return false;
    }
    let mut i: usize = 0;
    while i < prefix.len()
        invariant
            prefix@.len() <= s@.len(),
            i <= prefix@.len(),
            forall|k: int| 0 <= k < i ==> s@[k] == prefix@[k],
        decreases prefix@.len() - i,
    {
        if s[i] != prefix[i] {
            assert(s@.subrange(0, prefix@.len() as int)[i as int] != prefix@[i as int]);
            return false;
        }
        i = i + 1;
    }
    assert(s@.subrange(0, prefix@.len() as int) =~= prefix@);
    true
}

/// True when the two character sequences are equal.
pub fn chars_eq(a: &[char], b: &[char]) -> (r: bool)
    ensures
        r == (a@ == b@),
{
    if a.len() != b.len() {
        return false;
    }
    let r = starts_with_chars(a, b);
    proof {
        if r || a@ == b@ {
            assert(a@.subrange(0, b@.len() as int) =~= a@);
        }
    }
    r
}

/// `s` with `suffix` removed when it ends with it.
pub fn strip_suffix_chars(s: &[char], suffix: &[char]) -> (r: Vec<char>)
    ensures
        r@ == strip_suffix_seq(s@, suffix@),
{
    let n = s.len();
    let m = suffix.len();
    let mut matches = m <= n;
    let mut i: usize = 0;
    if matches {
        while i < m
            invariant
                m <= n,
                n == s@.len(),
                m == suffix@.len(),
                i <= m,
                matches ==> forall|k: int| 0 <= k < i ==> s@[n - m + k] == suffix@[k],
                !matches ==> s@.subrange(n - m, n as int) != suffix@,
            decreases m - i,
        {
            if s[n - m + i] != suffix[i] {
                matches = false;
                assert(s@.subrange(n - m, n as int)[i as int] != suffix@[i as int]);
            }
            i = i + 1;
        }
        if matches {
            assert(s@.subrange(n - m, n as int) =~= suffix@);
        }
    }
    let end = if matches {
        n - m
    } else {
        n
    };
    let mut r: Vec<char> = Vec::new();
    let mut k: usize = 0;
    while k < end
        invariant
            end <= n == s@.len(),
            k <= end,
            r@ == s@.subrange(0, k as int),
        decreases end - k,
    {
        r.push(s[k]);
        k = k + 1;
    }
    assert(r@ =~= strip_suffix_seq(s@, suffix@));
    r
}

/// Normalise a module name into a registry key: trim, ASCII lower-case,
/// keep the last `\` and `/` path component, strip a `.dll` suffix. So
/// `kernel32.dll`, `kernel32` and `C:\Windows\kernel32.DLL` share one key.
pub fn normalize_module_name(name: &str) -> (r: String)
    ensures
        r@ == normalized_module(name@),
{
    let cs = chars_of(name);
    let t = trim_chars(cs.as_slice());
    let l = lower_chars(t.as_slice());
    let a = after_last_chars(l.as_slice(), '\\');
    let b = after_last_chars(a.as_slice(), '/');
    let suffix = vec!['.', 'd', 'l', 'l'];
    assert(suffix@ =~= dll_suffix());
    let c = strip_suffix_chars(b.as_slice(), suffix.as_slice());
    string_from_chars(c.as_slice())
}

/// Normalise an export name: ASCII lower-case, no surrounding whitespace.
pub fn normalize_export_name(name: &str) -> (r: String)
    ensures
        r@ == normalized_export(name@),
{
    let cs = chars_of(name);
    let t = trim_chars(cs.as_slice());
    let l = lower_chars(t.as_slice());
    string_from_chars(l.as_slice())
}


/// The decimal digit character for `d < 10`.
pub open spec fn digit_char(d: int) -> char {
    ((d + 48) as u32) as char
}

/// Decimal rendering of `n` (no sign, no leading zeros), as `{}` formats it.
pub open spec fn decimal(n: nat) -> Seq<char>
    decreases n,
{
    if n < 10 {
        seq![digit_char(n as int)]
    } else {
        decimal(n / 10).push(digit_char((n % 10) as int))
    }
}

/// Append the decimal rendering of `n` to `out`.
pub fn push_decimal(n: u64, out: &mut Vec<char>)
    ensures
        final(out)@ == old(out)@ + decimal(n as nat),
    decreases n,
{
    if n >= 10 {
        push_decimal(n / 10, out);
    }
    let d: u8 = (n % 10) as u8;
    let c = (d + 48) as char;
    out.push(c);
    proof {
        if n >= 10 {
            assert(decimal(n as nat) == decimal((n / 10) as nat).push(digit_char((n % 10) as int)));
        } else {
            assert(decimal(n as nat) == seq![digit_char(n as int)]);
        }
    }
}

/// The lower-case hexadecimal digit character for `d < 16`.
pub open spec fn hex_digit(d: int) -> char {
    if d < 10 {
        ((d + 48) as u32) as char
    } else {
        ((d + 87) as u32) as char
    }
}

/// Lower-case hexadecimal rendering of `n` (no prefix, no leading zeros),
/// as `{:x}` formats it.
pub open spec fn hex(n: nat) -> Seq<char>
    decreases n,
{
    if n < 16 {
        seq![hex_digit(n as int)]
    } else {
        hex(n / 16).push(hex_digit((n % 16) as int))
    }
}

/// Append the lower-case hexadecimal rendering of `n` to `out`.
pub fn push_hex(n: u64, out: &mut Vec<char>)
    ensures
        final(out)@ == old(out)@ + hex(n as nat),
    decreases n,
{
    if n >= 16 {
        push_hex(n / 16, out);
    }
    let d: u8 = (n % 16) as u8;
    let c = if d < 10 {
        (d + 48) as char
    } else {
        (d + 87) as char
    };
    out.push(c);
    proof {
        if n >= 16 {
            assert(hex(n as nat) == hex((n / 16) as nat).push(hex_digit((n % 16) as int)));
        } else {
            assert(hex(n as nat) == seq![hex_digit(n as int)]);
        }
    }
}

pub open spec fn is_digit(c: char) -> bool {
    '0' <= c && c <= '9'
}

/// True when every character of `s` is an ASCII digit.
pub open spec fn all_digits(s: Seq<char>) -> bool {
    forall|i: int| 0 <= i < s.len() ==> is_digit(#[trigger] s[i])
}

/// Value of a string of decimal digits.
pub open spec fn digits_value(s: Seq<char>) -> nat
    decreases s.len(),
{
    if s.len() == 0 {
        0
    } else {
        (digits_value(s.drop_last()) * 10 + (s.last() as int - 48)) as nat
    }
}

/// `str::parse::<u32>()`: an optional `+`, then one or more ASCII digits
/// whose value fits in `u32`; anything else is an error.
pub open spec fn parse_u32_spec(s: Seq<char>) -> Option<u32> {
    let body = if s.len() > 0 && s[0] == '+' {
        s.drop_first()
    } else {
        s
    };
    if body.len() == 0 || !all_digits(body) {
        None
    } else if digits_value(body) > u32::MAX {
        None
    } else {
        Some(digits_value(body) as u32)
    }
}

proof fn lemma_digits_value_grows(s: Seq<char>, k: int)
    requires
        0 <= k <= s.len(),
        forall|i: int| 0 <= i < s.len() ==> is_digit(#[trigger] s[i]),
    ensures
        digits_value(s.subrange(0, k)) <= digits_value(s),
    decreases s.len() - k,
{
    if k < s.len() {
        lemma_digits_value_grows(s, k + 1);
        let p = s.subrange(0, k + 1);
        assert(p.drop_last() =~= s.subrange(0, k));
    } else {
        assert(s.subrange(0, k) =~= s);
    }
}

/// Parse `s` as `str::parse::<u32>()` does.
pub fn parse_u32_decimal(s: &[char]) -> (r: Option<u32>)
    ensures
        r == parse_u32_spec(s@),
{
    let n = s.len();
    let start: usize = if n > 0 && s[0] == '+' {
        1
    } else {
        0
    };
    let ghost body = if s@.len() > 0 && s@[0] == '+' {
        s@.drop_first()
    } else {
        s@
    };
    assert(body =~= s@.subrange(start as int, n as int));
    if start == n {
        return None;
    }
    let mut v: u64 = 0;
    let mut i: usize = start;
    while i < n
        invariant
            start <= i <= n == s@.len(),
            body =~= s@.subrange(start as int, n as int),
            body == (if s@.len() > 0 && s@[0] == '+' {
                s@.drop_first()
            } else {
                s@
            }),
            forall|k: int| start <= k < i ==> is_digit(#[trigger] s@[k]),
            v == digits_value(s@.subrange(start as int, i as int)),
            v <= u32::MAX,
        decreases n - i,
    {
        let c = s[i];
        if !('0' <= c && c <= '9') {
            assert(body[i - start] == s@[i as int]);
            assert(!is_digit(body[i - start]));
            assert(!all_digits(body));
            return None;
        }
        let d: u8 = c as u8;
        assert(d as int == c as int);
        let ghost pre = s@.subrange(start as int, i + 1);
        assert(pre.drop_last() =~= s@.subrange(start as int, i as int));
        assert(pre.last() == c);
        v = v * 10 + (d - 48) as u64;
        assert(v == digits_value(pre));
        i = i + 1;
        if v > 0xFFFF_FFFF {
            proof {
                let pre = s@.subrange(start as int, i as int);
                assert(pre =~= body.subrange(0, (i - start) as int));
                if all_digits(body) {
                    lemma_digits_value_grows(body, (i - start) as int);
                }
            }
            return None;
        }
    }
    assert(s@.subrange(start as int, n as int) =~= body);
    Some(v as u32)
}

/// `(before, after)` around the first `sep` (`str::split_once`).
pub open spec fn split_first(s: Seq<char>, sep: char) -> Option<(Seq<char>, Seq<char>)> {
    if exists|i: int| 0 <= i < s.len() && s[i] == sep {
        let i = choose|i: int| 0 <= i < s.len() && s[i] == sep && forall|j: int| 0 <= j < i ==> s[j] != sep;
        Some((s.subrange(0, i), s.subrange(i + 1, s.len() as int)))
    } else {
        None
    }
}

/// Index of the first `sep` in `s`, if any.
pub fn find_char(s: &[char], sep: char) -> (r: Option<usize>)
    ensures
        match r {
            Some(i) => i < s.len() && s@[i as int] == sep && forall|j: int|
                0 <= j < i ==> s@[j] != sep,
            None => forall|j: int| 0 <= j < s@.len() ==> s@[j] != sep,
        },
{
    let mut i: usize = 0;
    while i < s.len()
        invariant
            i <= s@.len(),
            forall|j: int| 0 <= j < i ==> s@[j] != sep,
        decreases s@.len() - i,
    {
        if s[i] == sep {
            return Some(i);
        }
        i = i + 1;
    }
    None
}

proof fn lemma_least_sep(s: Seq<char>, sep: char, w: int)
    requires
        0 <= w < s.len(),
        s[w] == sep,
    ensures
        exists|i: int| 0 <= i < s.len() && s[i] == sep && forall|j: int| 0 <= j < i ==> s[j] != sep,
    decreases w,
{
    if exists|j: int| 0 <= j < w && s[j] == sep {
        let j = choose|j: int| 0 <= j < w && s[j] == sep;
        lemma_least_sep(s, sep, j);
    } else {
        assert(forall|j: int| 0 <= j < w ==> s[j] != sep);
    }
}

/// [`split_first`] splits around the least index of `sep`, and is `None`
/// exactly when `sep` does not occur.
pub proof fn lemma_split_first(s: Seq<char>, sep: char)
    ensures
        s.contains(sep) <==> split_first(s, sep) is Some,
        s.contains(sep) ==> exists|i: int|
            0 <= i < s.len() && s[i] == sep && (forall|j: int| 0 <= j < i ==> s[j] != sep) && split_first(s, sep)
                == Some((s.subrange(0, i), s.subrange(i + 1, s.len() as int))),
{
    if s.contains(sep) {
        let w = choose|w: int| 0 <= w < s.len() && s[w] == sep;
        lemma_least_sep(s, sep, w);
        let i = choose|i: int| 0 <= i < s.len() && s[i] == sep && forall|j: int| 0 <= j < i ==> s[j] != sep;
        lemma_first_index_unique(s, sep, i);
    }
}

pub proof fn lemma_first_index_unique(s: Seq<char>, sep: char, i: int)
    requires
        0 <= i < s.len(),
        s[i] == sep,
        forall|j: int| 0 <= j < i ==> s[j] != sep,
    ensures
        split_first(s, sep) == Some((s.subrange(0, i), s.subrange(i + 1, s.len() as int))),
{
    let k = choose|k: int| 0 <= k < s.len() && s[k] == sep && forall|j: int| 0 <= j < k ==> s[j] != sep;
    assert(0 <= k < s.len() && s[k] == sep && forall|j: int| 0 <= j < k ==> s[j] != sep);
    if k < i {
        assert(s[k] != sep);
    }
    if i < k {
        assert(s[i] != sep);
    }
}

/// Split `s` around its first `sep`.
pub fn split_first_chars(s: &[char], sep: char) -> (r: Option<(Vec<char>, Vec<char>)>)
    ensures
        match r {
            Some((a, b)) => split_first(s@, sep) == Some((a@, b@)),
            None => split_first(s@, sep) is None,
        },
{
    match find_char(s, sep) {
        None => None,
        Some(i) => {
            proof {
                lemma_first_index_unique(s@, sep, i as int);
            }
            let mut a: Vec<char> = Vec::new();
            let mut k: usize = 0;
            while k < i
                invariant
                    k <= i < s@.len(),
                    a@ == s@.subrange(0, k as int),
                decreases i - k,
            {
                a.push(s[k]);
                k = k + 1;
            }
            let mut b: Vec<char> = Vec::new();
            let mut m: usize = i + 1;
            while m < s.len()
                invariant
                    i + 1 <= m <= s@.len(),
                    b@ == s@.subrange(i + 1, m as int),
                decreases s@.len() - m,
            {
                b.push(s[m]);
                m = m + 1;
            }
            Some((a, b))
        },
    }
}

/// `s` as a lower-cased `String`.
pub fn lower_string(s: &str) -> (r: String)
    ensures
        r@ == lower_seq(s@),
{
    let cs = chars_of(s);
    let l = lower_chars(cs.as_slice());
    string_from_chars(l.as_slice())
}

/// True when the two strings hold the same characters.
pub fn str_eq(a: &str, b: &str) -> (r: bool)
    ensures
        r == (a@ == b@),
{
    let x = chars_of(a);
    let y = chars_of(b);
    chars_eq(x.as_slice(), y.as_slice())
}

/// `needle` occurs in `hay` as a run of consecutive characters
/// (`str::contains`; the empty needle occurs everywhere).
pub open spec fn contains_seq(hay: Seq<char>, needle: Seq<char>) -> bool {
    exists|i: int|
        0 <= i && i + needle.len() <= hay.len() && #[trigger] hay.subrange(i, i + needle.len()) == needle
}

/// Whether `needle` occurs in `hay` starting at `i`.
fn matches_at(hay: &[char], needle: &[char], i: usize) -> (r: bool)
    requires
        i + needle@.len() <= hay@.len(),
    ensures
        r == (hay@.subrange(i as int, i + needle@.len()) == needle@),
{
    let hl = hay.len();
    let mut j: usize = 0;
    while j < needle.len()
        invariant
            j <= needle@.len(),
            hl == hay@.len(),
            i + needle@.len() <= hay@.len(),
            forall|t: int| 0 <= t < j ==> hay@[i + t] == needle@[t],
        decreases needle@.len() - j,
    {
        if hay[i + j] != needle[j] {
            assert(hay@.subrange(i as int, i + needle@.len())[j as int] != needle@[j as int]);
            return false;
        }
        j = j + 1;
    }
    assert(hay@.subrange(i as int, i + needle@.len()) =~= needle@);
    true
}

/// `needle` occurs in `hay` (see [`contains_seq`]).
pub fn contains_chars(hay: &[char], needle: &[char]) -> (r: bool)
    ensures
        r == contains_seq(hay@, needle@),
{
    if needle.len() == 0 {
        assert(hay@.subrange(0int, 0int + needle@.len()) =~= needle@);
        return true;
    }
    if needle.len() > hay.len() {
        return false;
    }
    let last = hay.len() - needle.len();
    let mut i: usize = 0;
    while i <= last
        invariant
            i <= last + 1,
            last + needle@.len() == hay@.len(),
            hay@.len() <= usize::MAX,
            needle@.len() > 0,
            forall|k: int| 0 <= k < i ==> #[trigger] hay@.subrange(k, k + needle@.len()) != needle@,
        decreases last + 1 - i,
    {
        if matches_at(hay, needle, i) {
            return true;
        }
        i = i + 1;
    }
    false
}

/// `needle` occurs in `hay` (`str::contains`).
pub fn contains_str(hay: &str, needle: &str) -> (r: bool)
    ensures
        r == contains_seq(hay@, needle@),
{
    let h = chars_of(hay);
    let n = chars_of(needle);
    contains_chars(h.as_slice(), n.as_slice())
}

/// What `str::to_lowercase` makes of a string: full Unicode lower-casing,
/// a function of the characters alone.
pub uninterp spec fn unicode_lowercase(s: Seq<char>) -> Seq<char>;

/// `str::to_lowercase`. Its documentation defines the result by the Unicode
/// `Lowercase` mapping of each character; nothing more is claimed here than
/// that the result is that mapping of the argument.
#[verifier::external_body]
pub(crate) fn to_lowercase_string(s: &str) -> (r: String)
    ensures
        r@ == unicode_lowercase(s@),
{
    s.to_lowercase()
}

/// Lexicographic order on character sequences, by code point (the order
/// `String`'s `Ord` gives, UTF-8 preserving code-point order).
pub open spec fn seq_lt(a: Seq<char>, b: Seq<char>) -> bool
    decreases a.len(),
{
    if a.len() == 0 {
        b.len() > 0
    } else if b.len() == 0 {
        false
    } else if a[0] != b[0] {
        a[0] < b[0]
    } else {
        seq_lt(a.drop_first(), b.drop_first())
    }
}

pub proof fn lemma_seq_lt_irreflexive(a: Seq<char>)
    ensures
        !seq_lt(a, a),
    decreases a.len(),
{
    if a.len() > 0 {
        lemma_seq_lt_irreflexive(a.drop_first());
    }
}

pub proof fn lemma_seq_lt_transitive(a: Seq<char>, b: Seq<char>, c: Seq<char>)
    requires
        seq_lt(a, b),
        seq_lt(b, c),
    ensures
        seq_lt(a, c),
    decreases a.len(),
{
    if a.len() > 0 && b.len() > 0 && c.len() > 0 && a[0] == b[0] && b[0] == c[0] {
        lemma_seq_lt_transitive(a.drop_first(), b.drop_first(), c.drop_first());
    }
}

pub proof fn lemma_seq_lt_total(a: Seq<char>, b: Seq<char>)
    requires
        a != b,
    ensures
        seq_lt(a, b) || seq_lt(b, a),
    decreases a.len(),
{
    if a.len() > 0 && b.len() > 0 && a[0] == b[0] {
        if a.drop_first() == b.drop_first() {
            assert(a =~= seq![a[0]] + a.drop_first());
            assert(b =~= seq![b[0]] + b.drop_first());
        }
        lemma_seq_lt_total(a.drop_first(), b.drop_first());
    } else if a.len() == 0 && b.len() == 0 {
        assert(a =~= b);
    }
}

/// True when `a` orders before `b` (see [`seq_lt`]).
pub fn chars_lt(a: &[char], b: &[char]) -> (r: bool)
    ensures
        r == seq_lt(a@, b@),
{
    let mut i: usize = 0;
    assert(a@.subrange(0, a@.len() as int) =~= a@);
    assert(b@.subrange(0, b@.len() as int) =~= b@);
    while i < a.len() && i < b.len()
        invariant
            i <= a@.len(),
            i <= b@.len(),
            seq_lt(a@, b@) == seq_lt(
                a@.subrange(i as int, a@.len() as int),
                b@.subrange(i as int, b@.len() as int),
            ),
        decreases a@.len() - i,
    {
        let ghost x = a@.subrange(i as int, a@.len() as int);
        let ghost y = b@.subrange(i as int, b@.len() as int);
        assert(x[0] == a@[i as int] && y[0] == b@[i as int]);
        if a[i] != b[i] {
            return a[i] < b[i];
        }
        assert(x.drop_first() =~= a@.subrange(i + 1, a@.len() as int));
        assert(y.drop_first() =~= b@.subrange(i + 1, b@.len() as int));
        i = i + 1;
    }
    assert(a@.subrange(i as int, a@.len() as int).len() == a@.len() - i);
    i < b.len()
}

/// The characters of each string.
pub open spec fn strings_view(v: Seq<String>) -> Seq<Seq<char>> {
    v.map_values(|s: String| s@)
}

pub open spec fn strictly_sorted(s: Seq<Seq<char>>) -> bool {
    forall|i: int, j: int| 0 <= i < j < s.len() ==> seq_lt(#[trigger] s[i], #[trigger] s[j])
}

/// The distinct strings of `v`, in ascending order (what sorting and then
/// removing consecutive duplicates gives).
pub fn sorted_unique(v: &Vec<String>) -> (r: Vec<String>)
    ensures
        strictly_sorted(strings_view(r@)),
        strings_view(r@).to_set() == strings_view(v@).to_set(),
{
    let mut res: Vec<String> = Vec::new();
    let mut i: usize = 0;
    while i < v.len()
        invariant
            i <= v@.len(),
            strictly_sorted(strings_view(res@)),
            forall|x: Seq<char>| strings_view(res@).contains(x) <==> strings_view(v@).subrange(0, i as int).contains(x),
        decreases v@.len() - i,
    {
        let ghost rv = strings_view(res@);
        let ghost name = v@[i as int]@;
        let nc = chars_of(v[i].as_str());
        let mut k: usize = 0;
        let mut go = true;
        while go && k < res.len()
            invariant
                rv == strings_view(res@),
                k <= res@.len(),
                nc@ == name,
                forall|j: int| 0 <= j < k ==> seq_lt(#[trigger] rv[j], name),
                !go ==> k < res@.len() && !seq_lt(rv[k as int], name),
            decreases (res@.len() - k) * 2 + if go {
                1int
            } else {
                0int
            },
        {
            let rc = chars_of(res[k].as_str());
            assert(rc@ == rv[k as int]);
            if chars_lt(rc.as_slice(), nc.as_slice()) {
                k = k + 1;
            } else {
                go = false;
            }
        }
        let mut dup = false;
        if k < res.len() {
            let rc = chars_of(res[k].as_str());
            assert(rc@ == rv[k as int]);
            dup = chars_eq(rc.as_slice(), nc.as_slice());
        }
        assert(strings_view(v@).subrange(0, i + 1) =~= strings_view(v@).subrange(0, i as int).push(name));
        if !dup {
            proof {
                if k < res@.len() {
                    assert(!seq_lt(rv[k as int], name));
                    assert(rv[k as int] != name);
                    lemma_seq_lt_total(rv[k as int], name);
                }
                assert forall|a: int, b: int| 0 <= a < b < rv.len() + 1 implies seq_lt(
                    #[trigger] rv.insert(k as int, name)[a],
                    #[trigger] rv.insert(k as int, name)[b],
                ) by {
                    let w = rv.insert(k as int, name);
                    if a < k && b == k {
                    } else if a < k && b > k {
                        assert(w[b] == rv[b - 1]);
                        if b - 1 > a {
                            assert(seq_lt(rv[a], rv[b - 1]));
                        }
                    } else if a == k && b > k {
                        assert(w[b] == rv[b - 1]);
                        if b - 1 > k {
                            assert(seq_lt(rv[k as int], rv[b - 1]));
                            lemma_seq_lt_transitive(name, rv[k as int], rv[b - 1]);
                        }
                    } else if a > k {
                        assert(w[a] == rv[a - 1] && w[b] == rv[b - 1]);
                    } else {
                        assert(w[a] == rv[a] && w[b] == rv[b]);
                    }
                }
            }
            let s = v[i].clone();
            res.insert(k, s);
            assert(strings_view(res@) =~= rv.insert(k as int, name));
            assert forall|x: Seq<char>| strings_view(res@).contains(x) <==> strings_view(v@).subrange(0, i + 1).contains(x) by {
                if rv.insert(k as int, name).contains(x) {
                    let j = choose|j: int| 0 <= j < rv.len() + 1 && rv.insert(k as int, name)[j] == x;
                    if j < k {
                        assert(rv[j] == x);
                    } else if j > k {
                        assert(rv[j - 1] == x);
                    }
                }
                if rv.contains(x) {
                    let j = choose|j: int| 0 <= j < rv.len() && rv[j] == x;
                    if j < k {
                        assert(rv.insert(k as int, name)[j] == x);
                    } else {
                        assert(rv.insert(k as int, name)[j + 1] == x);
                    }
                }
                if x == name {
                    assert(rv.insert(k as int, name)[k as int] == x);
                }
                let pre = strings_view(v@).subrange(0, i as int);
                if pre.push(name).contains(x) {
                    let j = choose|j: int| 0 <= j < i + 1 && #[trigger] pre.push(name)[j] == x;
                    if j < i {
                        assert(pre[j] == x);
                    }
                }
                if pre.contains(x) {
                    let j = choose|j: int| 0 <= j < i && #[trigger] pre[j] == x;
                    assert(pre.push(name)[j] == x);
                }
                if x == name {
                    assert(pre.push(name)[i as int] == x);
                }
            }
        } else {
            assert(rv[k as int] == name);
            assert forall|x: Seq<char>| strings_view(res@).contains(x) <==> strings_view(v@).subrange(0, i + 1).contains(x) by {
                if x == name {
                    assert(rv[k as int] == x);
                }
                let pre = strings_view(v@).subrange(0, i as int);
                if pre.push(name).contains(x) {
                    let j = choose|j: int| 0 <= j < i + 1 && #[trigger] pre.push(name)[j] == x;
                    if j < i {
                        assert(pre[j] == x);
                    }
                }
            }
        }
        i = i + 1;
    }
    assert(strings_view(v@).subrange(0, v@.len() as int) =~= strings_view(v@));
    assert(strings_view(res@).to_set() =~= strings_view(v@).to_set());
    res
}

} // verus!
