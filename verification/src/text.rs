//! Character-level helpers shared by the text parsers.

use vstd::prelude::*;
use vstd::std_specs::iter::IteratorSpec;

verus! {

broadcast use vstd::string::group_string_axioms;

/// The characters of a text, in order.
pub fn chars_of(text: &str) -> (out: Vec<char>)
    ensures
        out@ == text@,
{
    let mut out: Vec<char> = Vec::new();
    let mut it = text.chars();
    loop
        invariant
            it.obeys_prophetic_iter_laws(),
            it.decrease() is Some,
            out@ + it.remaining() == text@,
        ensures
            out@ == text@,
        decreases it.decrease()->0,
    {
        match it.next() {
            Some(c) => {
                out.push(c);
            },
            None => {
                assert(it.remaining().len() == 0);
                assert(out@ + it.remaining() =~= out@);
                break;
            },
        }
    }
    out
}


/// The Unicode White_Space characters, the ones that trimming removes.
pub open spec fn is_whitespace(c: char) -> bool {
    let u = c as u32;
    (0x09 <= u <= 0x0D) || u == 0x20 || u == 0x85 || u == 0xA0 || u == 0x1680 || (0x2000 <= u
        <= 0x200A) || u == 0x2028 || u == 0x2029 || u == 0x202F || u == 0x205F || u == 0x3000
}

/// Predicate of the whitespace characters.
pub open spec fn whitespace() -> spec_fn(char) -> bool {
    |c: char| is_whitespace(c)
}

/// Predicate of one character.
pub open spec fn is_char(x: char) -> spec_fn(char) -> bool {
    |c: char| c == x
}

/// `s` without the leading characters that satisfy `p`.
pub open spec fn trim_start_by(s: Seq<char>, p: spec_fn(char) -> bool) -> Seq<char>
    decreases s.len(),
{
    if s.len() > 0 && p(s[0]) {
        trim_start_by(s.drop_first(), p)
    } else {
        s
    }
}

/// `s` without the trailing characters that satisfy `p`.
pub open spec fn trim_end_by(s: Seq<char>, p: spec_fn(char) -> bool) -> Seq<char>
    decreases s.len(),
{
    if s.len() > 0 && p(s.last()) {
        trim_end_by(s.drop_last(), p)
    } else {
        s
    }
}

/// `s` without leading and trailing characters that satisfy `p`.
pub open spec fn trim_by(s: Seq<char>, p: spec_fn(char) -> bool) -> Seq<char> {
    trim_end_by(trim_start_by(s, p), p)
}

/// `s` without leading and trailing whitespace.
pub open spec fn trim(s: Seq<char>) -> Seq<char> {
    trim_by(s, whitespace())
}

/// Whether `s` holds the character `c`.
pub open spec fn has_char(s: Seq<char>, c: char) -> bool {
    exists|i: int| 0 <= i < s.len() && s[i] == c
}

/// Whether `s` begins with `prefix`.
pub open spec fn starts_with(s: Seq<char>, prefix: Seq<char>) -> bool {
    prefix.len() <= s.len() && s.subrange(0, prefix.len() as int) == prefix
}

/// Trimming the start removes the first `i` characters when they all
/// satisfy `p` and the next one does not.
pub proof fn lemma_trim_start_by(s: Seq<char>, p: spec_fn(char) -> bool, i: int)
    requires
        0 <= i <= s.len(),
        forall|k: int| 0 <= k < i ==> p(s[k]),
        i == s.len() || !p(s[i]),
    ensures
        trim_start_by(s, p) == s.subrange(i, s.len() as int),
    decreases i,
{
    if i == 0 {
        assert(s.subrange(0, s.len() as int) =~= s);
    } else {
        let d = s.drop_first();
        lemma_trim_start_by(d, p, i - 1);
        assert(d.subrange(i - 1, d.len() as int) =~= s.subrange(i, s.len() as int));
    }
}

/// Trimming the end keeps the first `j` characters when all after them
/// satisfy `p` and the one before does not.
pub proof fn lemma_trim_end_by(s: Seq<char>, p: spec_fn(char) -> bool, j: int)
    requires
        0 <= j <= s.len(),
        forall|k: int| j <= k < s.len() ==> p(s[k]),
        j == 0 || !p(s[j - 1]),
    ensures
        trim_end_by(s, p) == s.subrange(0, j),
    decreases s.len() - j,
{
    if j == s.len() {
        assert(s.subrange(0, j) =~= s);
    } else {
        let d = s.drop_last();
        lemma_trim_end_by(d, p, j);
        assert(d.subrange(0, j) =~= s.subrange(0, j));
    }
}

/// What trimming the end leaves: a start of the text, after which every
/// character satisfies `p`, and whose own last character, if any, does not.
pub proof fn lemma_trim_end_by_shape(s: Seq<char>, p: spec_fn(char) -> bool)
    ensures
        trim_end_by(s, p).len() <= s.len(),
        s.subrange(0, trim_end_by(s, p).len() as int) == trim_end_by(s, p),
        forall|k: int| trim_end_by(s, p).len() <= k < s.len() ==> p(#[trigger] s[k]),
        trim_end_by(s, p).len() == 0 || !p(trim_end_by(s, p).last()),
    decreases s.len(),
{
    if s.len() > 0 && p(s.last()) {
        let d = s.drop_last();
        lemma_trim_end_by_shape(d, p);
        let t = trim_end_by(d, p);
        assert(s.subrange(0, t.len() as int) =~= d.subrange(0, t.len() as int));
        assert forall|k: int| t.len() <= k < s.len() implies p(#[trigger] s[k]) by {
            if k < d.len() {
                assert(s[k] == d[k]);
            }
        }
    } else {
        assert(s.subrange(0, s.len() as int) =~= s);
    }
}

/// Whether `c` is a Unicode White_Space character.
pub fn is_whitespace_char(c: char) -> (b: bool)
    ensures
        b == is_whitespace(c),
{
    let u = c as u32;
    (0x09 <= u && u <= 0x0D) || u == 0x20 || u == 0x85 || u == 0xA0 || u == 0x1680 || (0x2000 <= u
        && u <= 0x200A) || u == 0x2028 || u == 0x2029 || u == 0x202F || u == 0x205F || u == 0x3000
}

/// Bounds of `s[a..b]` once leading and trailing whitespace is removed.
pub fn trim_range(s: &Vec<char>, a: usize, b: usize) -> (r: (usize, usize))
    requires
        a <= b <= s@.len(),
    ensures
        a <= r.0 <= r.1 <= b,
        s@.subrange(r.0 as int, r.1 as int) == trim(s@.subrange(a as int, b as int)),
{
    let ghost w = whitespace();
    let mut i = a;
    while i < b && is_whitespace_char(s[i])
        invariant
            a <= i <= b <= s@.len(),
            forall|k: int| a <= k < i ==> is_whitespace(s@[k]),
        decreases b - i,
    {
        i += 1;
    }
    let ghost x = s@.subrange(a as int, b as int);
    proof {
        lemma_trim_start_by(x, w, i - a);
        assert(x.subrange(i - a, x.len() as int) =~= s@.subrange(i as int, b as int));
    }
    let mut j = b;
    while j > i && is_whitespace_char(s[j - 1])
        invariant
            i <= j <= b <= s@.len(),
            forall|k: int| j <= k < b ==> is_whitespace(s@[k]),
        decreases j - i,
    {
        j -= 1;
    }
    proof {
        let y = s@.subrange(i as int, b as int);
        lemma_trim_end_by(y, w, j - i);
        assert(y.subrange(0, j - i) =~= s@.subrange(i as int, j as int));
    }
    (i, j)
}

/// Start of `s[a..b]` once the leading copies of `c` are removed.
pub fn trim_start_char_range(s: &Vec<char>, a: usize, b: usize, c: char) -> (r: usize)
    requires
        a <= b <= s@.len(),
    ensures
        a <= r <= b,
        s@.subrange(r as int, b as int) == trim_start_by(s@.subrange(a as int, b as int), is_char(c)),
{
    let mut i = a;
    while i < b && s[i] == c
        invariant
            a <= i <= b <= s@.len(),
            forall|k: int| a <= k < i ==> s@[k] == c,
        decreases b - i,
    {
        i += 1;
    }
    proof {
        let x = s@.subrange(a as int, b as int);
        lemma_trim_start_by(x, is_char(c), i - a);
        assert(x.subrange(i - a, x.len() as int) =~= s@.subrange(i as int, b as int));
    }
    i
}

/// End of `s[a..b]` once the trailing copies of `c` are removed.
pub fn trim_end_char_range(s: &Vec<char>, a: usize, b: usize, c: char) -> (r: usize)
    requires
        a <= b <= s@.len(),
    ensures
        a <= r <= b,
        s@.subrange(a as int, r as int) == trim_end_by(s@.subrange(a as int, b as int), is_char(c)),
{
    let mut j = b;
    while j > a && s[j - 1] == c
        invariant
            a <= j <= b <= s@.len(),
            forall|k: int| j <= k < b ==> s@[k] == c,
        decreases j - a,
    {
        j -= 1;
    }
    proof {
        let x = s@.subrange(a as int, b as int);
        lemma_trim_end_by(x, is_char(c), j - a);
        assert(x.subrange(0, j - a) =~= s@.subrange(a as int, j as int));
    }
    j
}

/// Calls std's `String::push`, which appends the character to the string.
#[verifier::external_body]
pub(crate) fn push_char(s: &mut String, c: char)
    ensures
        final(s)@ == old(s)@.push(c),
{
    s.push(c);
}

/// The string made of the characters `s[a..b]`.
pub fn string_of_range(s: &Vec<char>, a: usize, b: usize) -> (r: String)
    requires
        a <= b <= s@.len(),
    ensures
        r@ == s@.subrange(a as int, b as int),
{
    let mut r = String::new();
    let mut i = a;
    while i < b
        invariant
            a <= i <= b <= s@.len(),
            r@ == s@.subrange(a as int, i as int),
        decreases b - i,
    {
        push_char(&mut r, s[i]);
        assert(s@.subrange(a as int, i + 1) =~= s@.subrange(a as int, i as int).push(s@[i as int]));
        i += 1;
    }
    r
}


/// `s` ends with `suffix`.
pub open spec fn ends_with(s: Seq<char>, suffix: Seq<char>) -> bool {
    suffix.len() <= s.len() && s.subrange(s.len() - suffix.len(), s.len() as int) == suffix
}

/// `s` with every trailing copy of `suffix` removed, one after the other, as
/// `str::trim_end_matches` does with a text pattern; an empty `suffix` removes
/// nothing.
pub open spec fn trim_suffix_all(s: Seq<char>, suffix: Seq<char>) -> Seq<char>
    decreases s.len(),
{
    if suffix.len() > 0 && ends_with(s, suffix) {
        trim_suffix_all(s.subrange(0, s.len() - suffix.len()), suffix)
    } else {
        s
    }
}

/// Whether the characters `s[..end]` end with `suffix`.
pub fn ends_with_at(s: &Vec<char>, end: usize, suffix: &Vec<char>) -> (b: bool)
    requires
        end <= s@.len(),
    ensures
        b == ends_with(s@.subrange(0, end as int), suffix@),
{
    let ghost head = s@.subrange(0, end as int);
    if suffix.len() > end {
        return false;
    }
    let start = end - suffix.len();
    let mut i: usize = 0;
    while i < suffix.len()
        invariant
            start + suffix@.len() == end,
            end <= s@.len(),
            head == s@.subrange(0, end as int),
            i <= suffix@.len(),
            forall|k: int| 0 <= k < i ==> s@[start + k] == suffix@[k],
        decreases suffix@.len() - i,
    {
        if s[start + i] != suffix[i] {
            proof {
                assert(head.subrange(start as int, end as int)[i as int] == s@[start + i]);
            }
            return false;
        }
        i += 1;
    }
    proof {
        assert(head.subrange(start as int, end as int) =~= suffix@);
    }
    true
}

/// The length of `s` once every trailing copy of `suffix` is removed.
pub fn trim_suffix_end(s: &Vec<char>, suffix: &Vec<char>) -> (e: usize)
    ensures
        e <= s@.len(),
        s@.subrange(0, e as int) == trim_suffix_all(s@, suffix@),
{
    let mut e = s.len();
    proof {
        assert(s@.subrange(0, e as int) =~= s@);
    }
    if suffix.len() == 0 {
        return e;
    }
    while ends_with_at(s, e, suffix)
        invariant
            e <= s@.len(),
            suffix@.len() > 0,
            trim_suffix_all(s@, suffix@) == trim_suffix_all(s@.subrange(0, e as int), suffix@),
        decreases e,
    {
        let ghost prev = s@.subrange(0, e as int);
        e = e - suffix.len();
        proof {
            assert(prev.subrange(0, prev.len() - suffix@.len()) =~= s@.subrange(0, e as int));
        }
    }
    e
}

/// Whether two character sequences are equal.
pub fn same_chars(a: &Vec<char>, b: &Vec<char>) -> (r: bool)
    ensures
        r == (a@ == b@),
{
    if a.len() != b.len() {
        return false;
    }
    let mut i: usize = 0;
    while i < a.len()
        invariant
            a@.len() == b@.len(),
            i <= a@.len(),
            forall|k: int| 0 <= k < i ==> a@[k] == b@[k],
        decreases a@.len() - i,
    {
        if a[i] != b[i] {
            return false;
        }
        i += 1;
    }
    proof {
        assert(a@ =~= b@);
    }
    true
}

/// Whether two texts are equal.
pub fn text_equals(a: &str, b: &str) -> (r: bool)
    ensures
        r == (a@ == b@),
{
    let x = chars_of(a);
    let y = chars_of(b);
    same_chars(&x, &y)
}

/// `out` is `items` stably sorted by `keys`: the places of `items` in
/// ascending key order, places with equal keys in the order they are given
/// (see [`is_key_order`]).
pub open spec fn stable_sorted_by_key<T>(items: Seq<T>, keys: Seq<Seq<char>>, out: Seq<T>) -> bool {
    exists|order: Seq<usize>|
        #![trigger is_key_order(keys, order)]
        is_key_order(keys, order) && out.len() == order.len() && forall|i: int|
            0 <= i < out.len() ==> out[i] == items[#[trigger] order[i] as int]
}

/// `needle` occurs in `haystack` as a run of consecutive characters (the
/// empty text occurs in every text).
pub open spec fn contains_seq(haystack: Seq<char>, needle: Seq<char>) -> bool {
    exists|i: int|
        0 <= i && i + needle.len() <= haystack.len() && #[trigger] haystack.subrange(i, i + needle.len()) == needle
}

/// Whether `needle` occurs in `haystack`.
pub fn contains_text(haystack: &str, needle: &str) -> (found: bool)
    ensures
        found == contains_seq(haystack@, needle@),
{
    let h = chars_of(haystack);
    let n = chars_of(needle);
    if n.len() > h.len() {
        return false;
    }
    let hl = h.len();
    let last = hl - n.len();
    let mut start: usize = 0;
    loop
        invariant
            n@.len() <= h@.len(),
            hl == h@.len(),
            last == h@.len() - n@.len(),
            h@ == haystack@,
            n@ == needle@,
            start <= last,
            forall|i: int| 0 <= i < start ==> #[trigger] h@.subrange(i, i + n@.len()) != n@,
        ensures
            forall|i: int| 0 <= i <= last ==> #[trigger] h@.subrange(i, i + n@.len()) != n@,
        decreases last - start,
    {
        let mut k: usize = 0;
        while k < n.len() && h[start + k] == n[k]
            invariant
                start + n@.len() <= h@.len(),
                hl == h@.len(),
                last == h@.len() - n@.len(),
                start <= last,
                k <= n@.len(),
                forall|j: int| 0 <= j < k ==> h@[start + j] == n@[j],
            decreases n@.len() - k,
        {
            k += 1;
        }
        if k == n.len() {
            proof {
                assert(h@.subrange(start as int, start + n@.len()) =~= n@);
            }
            return true;
        }
        proof {
            assert(h@.subrange(start as int, start + n@.len())[k as int] == h@[start + k]);
        }
        if start == last {
            break;
        }
        start += 1;
    }
    proof {
        assert forall|i: int|
            0 <= i && i + needle@.len() <= haystack@.len() implies #[trigger] haystack@.subrange(i, i + needle@.len()) != needle@ by {
            assert(i <= last);
        }
    }
    false
}

/// `s` with every occurrence of the non-empty `pat`, found from left to
/// right without overlap, replaced by `to`, as `str::replace` does.
pub open spec fn replace_all(s: Seq<char>, pat: Seq<char>, to: Seq<char>) -> Seq<char>
    decreases s.len(),
{
    if pat.len() == 0 || s.len() == 0 {
        s
    } else if starts_with(s, pat) {
        to + replace_all(s.subrange(pat.len() as int, s.len() as int), pat, to)
    } else {
        seq![s[0]] + replace_all(s.drop_first(), pat, to)
    }
}

/// Whether `pat` occurs in `s` at `at`.
pub fn occurs_at(s: &Vec<char>, at: usize, pat: &Vec<char>) -> (b: bool)
    requires
        at <= s@.len(),
    ensures
        b == starts_with(s@.subrange(at as int, s@.len() as int), pat@),
{
    let ghost rest = s@.subrange(at as int, s@.len() as int);
    let sl = s.len();
    if pat.len() > sl - at {
        return false;
    }
    let mut i: usize = 0;
    while i < pat.len()
        invariant
            sl == s@.len(),
            at + pat@.len() <= s@.len(),
            rest == s@.subrange(at as int, s@.len() as int),
            i <= pat@.len(),
            forall|k: int| 0 <= k < i ==> s@[at + k] == pat@[k],
        decreases pat@.len() - i,
    {
        if s[at + i] != pat[i] {
            proof {
                assert(rest.subrange(0, pat@.len() as int)[i as int] == s@[at + i]);
            }
            return false;
        }
        i += 1;
    }
    proof {
        assert(rest.subrange(0, pat@.len() as int) =~= pat@);
    }
    true
}

/// `text` with every occurrence of `pat` replaced by `to`.
pub fn replace_text(text: &str, pat: &str, to: &str) -> (r: String)
    requires
        pat@.len() > 0,
    ensures
        r@ == replace_all(text@, pat@, to@),
{
    let s = chars_of(text);
    let p = chars_of(pat);
    let t = chars_of(to);
    let n = s.len();
    let mut r = String::new();
    let mut i: usize = 0;
    proof {
        assert(s@.subrange(0, n as int) =~= s@);
    }
    while i < n
        invariant
            n == s@.len(),
            s@ == text@,
            p@ == pat@,
            p@.len() > 0,
            t@ == to@,
            i <= n,
            replace_all(text@, pat@, to@) == r@ + replace_all(s@.subrange(i as int, n as int), pat@, to@),
        decreases n - i,
    {
        let ghost rest = s@.subrange(i as int, n as int);
        if occurs_at(&s, i, &p) {
            r.append(to);
            let ghost before = i;
            i = i + p.len();
            proof {
                assert(rest.subrange(p@.len() as int, rest.len() as int) =~= s@.subrange(i as int, n as int));
                assert(r@ + replace_all(s@.subrange(i as int, n as int), pat@, to@)
                    =~= (r@.subrange(0, r@.len() - t@.len())) + (t@ + replace_all(s@.subrange(i as int, n as int), pat@, to@)));
            }
        } else {
            let c = s[i];
            let ghost r0 = r@;
            push_char(&mut r, c);
            i = i + 1;
            proof {
                assert(rest.drop_first() =~= s@.subrange(i as int, n as int));
                assert(rest[0] == c);
                assert(r0 + (seq![c] + replace_all(s@.subrange(i as int, n as int), pat@, to@))
                    =~= r@ + replace_all(s@.subrange(i as int, n as int), pat@, to@));
            }
        }
    }
    proof {
        assert(s@.subrange(n as int, n as int) =~= Seq::<char>::empty());
        assert(r@ + Seq::<char>::empty() =~= r@);
    }
    r
}

/// `a` sorts before `b`: compared character by character (by code point), at
/// the first difference, or `a` is a proper prefix of `b`. This is the order
/// of `str` and `String`.
pub open spec fn chars_lt(a: Seq<char>, b: Seq<char>) -> bool
    decreases a.len(),
{
    if a.len() == 0 {
        b.len() > 0
    } else if b.len() == 0 {
        false
    } else if a[0] != b[0] {
        (a[0] as u32) < (b[0] as u32)
    } else {
        chars_lt(a.drop_first(), b.drop_first())
    }
}

/// The order of texts is transitive.
pub proof fn lemma_chars_lt_transitive(a: Seq<char>, b: Seq<char>, c: Seq<char>)
    requires
        chars_lt(a, b),
        chars_lt(b, c),
    ensures
        chars_lt(a, c),
    decreases a.len(),
{
    if a.len() > 0 && b.len() > 0 && c.len() > 0 && a[0] == b[0] && b[0] == c[0] {
        lemma_chars_lt_transitive(a.drop_first(), b.drop_first(), c.drop_first());
    }
}

/// Of two texts one comes first unless they are equal, never both, and
/// no text comes before itself.
pub proof fn lemma_chars_lt_total(a: Seq<char>, b: Seq<char>)
    ensures
        chars_lt(a, b) || a == b || chars_lt(b, a),
        !(chars_lt(a, b) && chars_lt(b, a)),
        !chars_lt(a, a),
    decreases a.len(),
{
    if a.len() > 0 {
        lemma_chars_lt_total(a.drop_first(), a.drop_first());
    }
    if a.len() == 0 {
        if b.len() == 0 {
            assert(a =~= b);
        }
    } else if b.len() > 0 {
        if a[0] == b[0] {
            lemma_chars_lt_total(a.drop_first(), b.drop_first());
            if a.drop_first() == b.drop_first() {
                assert forall|k: int| 0 <= k < a.len() implies a[k] == b[k] by {
                    if k > 0 {
                        assert(a[k] == a.drop_first()[k - 1]);
                        assert(b[k] == b.drop_first()[k - 1]);
                    }
                }
                assert(a =~= b);
            }
        } else {
            vstd::utf8::char_u32_cast(a[0], a[0] as u32);
            vstd::utf8::char_u32_cast(b[0], b[0] as u32);
        }
    }
}

/// Whether `a` sorts before `b` (see [`chars_lt`]).
pub fn chars_less(a: &Vec<char>, b: &Vec<char>) -> (r: bool)
    ensures
        r == chars_lt(a@, b@),
{
    let mut i: usize = 0;
    proof {
        assert(a@.subrange(0, a@.len() as int) =~= a@);
        assert(b@.subrange(0, b@.len() as int) =~= b@);
    }
    while i < a.len() && i < b.len() && a[i] == b[i]
        invariant
            i <= a@.len(),
            i <= b@.len(),
            forall|k: int| 0 <= k < i ==> a@[k] == b@[k],
            chars_lt(a@, b@) == chars_lt(a@.subrange(i as int, a@.len() as int), b@.subrange(i as int, b@.len() as int)),
        decreases a@.len() - i,
    {
        proof {
            let x = a@.subrange(i as int, a@.len() as int);
            let y = b@.subrange(i as int, b@.len() as int);
            assert(x.drop_first() =~= a@.subrange(i + 1, a@.len() as int));
            assert(y.drop_first() =~= b@.subrange(i + 1, b@.len() as int));
        }
        i += 1;
    }
    proof {
        let x = a@.subrange(i as int, a@.len() as int);
        let y = b@.subrange(i as int, b@.len() as int);
        if i < a@.len() && i < b@.len() {
            assert(x[0] == a@[i as int]);
            assert(y[0] == b@[i as int]);
        }
    }
    if i == a.len() {
        i < b.len()
    } else if i == b.len() {
        false
    } else {
        (a[i] as u32) < (b[i] as u32)
    }
}

/// Entry `a` of `keys` sorts before entry `b`: a smaller key, or the same key
/// and an earlier place.
pub open spec fn key_before(keys: Seq<Seq<char>>, a: usize, b: usize) -> bool {
    chars_lt(keys[a as int], keys[b as int]) || (keys[a as int] == keys[b as int] && a < b)
}

/// `order` lists every place of `keys` once, in ascending order of the keys,
/// places with equal keys in the order they are given.
pub open spec fn is_key_order(keys: Seq<Seq<char>>, order: Seq<usize>) -> bool {
    &&& order.len() == keys.len()
    &&& forall|i: int| 0 <= i < order.len() ==> #[trigger] order[i] < keys.len()
    &&& forall|i: int, j: int|
        0 <= i < j < order.len() ==> #[trigger] key_before(keys, order[i], order[j])
    &&& forall|k: usize| k < keys.len() ==> #[trigger] order.contains(k)
}

/// The characters of every string.
pub open spec fn views_of(v: Seq<String>) -> Seq<Seq<char>> {
    v.map_values(|s: String| s@)
}

/// The places of `keys` in ascending order of the keys, places with equal
/// keys in the order they are given (a stable sort).
pub fn sorted_key_order(keys: &Vec<String>) -> (order: Vec<usize>)
    ensures
        is_key_order(views_of(keys@), order@),
{
    let n = keys.len();
    let ghost ks = views_of(keys@);
    let mut chars: Vec<Vec<char>> = Vec::new();
    let mut c: usize = 0;
    while c < n
        invariant
            n == keys@.len(),
            c <= n,
            chars@.len() == c,
            forall|k: int| 0 <= k < c ==> #[trigger] chars@[k]@ == keys@[k]@,
        decreases n - c,
    {
        chars.push(chars_of(keys[c].as_str()));
        c += 1;
    }
    let mut order: Vec<usize> = Vec::new();
    let mut t: usize = 0;
    while t < n
        invariant
            n == keys@.len(),
            ks == views_of(keys@),
            chars@.len() == n,
            forall|k: int| 0 <= k < n ==> #[trigger] chars@[k]@ == ks[k],
            t <= n,
            order@.len() == t,
            forall|i: int| 0 <= i < order@.len() ==> #[trigger] order@[i] < t,
            forall|i: int, j: int|
                0 <= i < j < order@.len() ==> #[trigger] key_before(ks, order@[i], order@[j]),
            forall|k: usize| k < t ==> #[trigger] order@.contains(k),
        decreases n - t,
    {
        let mut p: usize = 0;
        while p < order.len() && !chars_less(&chars[t], &chars[order[p]])
            invariant
                n == keys@.len(),
                ks == views_of(keys@),
                chars@.len() == n,
                forall|k: int| 0 <= k < n ==> #[trigger] chars@[k]@ == ks[k],
                t < n,
                p <= order@.len(),
                forall|i: int| 0 <= i < order@.len() ==> #[trigger] order@[i] < t,
                forall|q: int| 0 <= q < p ==> !chars_lt(ks[t as int], #[trigger] ks[order@[q] as int]),
            decreases order@.len() - p,
        {
            p += 1;
        }
        proof {
            assert forall|q: int| p <= q < order@.len() implies chars_lt(ks[t as int], #[trigger] ks[order@[q] as int]) by {
                if q > p {
                    assert(key_before(ks, order@[p as int], order@[q]));
                    if chars_lt(ks[order@[p as int] as int], ks[order@[q] as int]) {
                        lemma_chars_lt_transitive(ks[t as int], ks[order@[p as int] as int], ks[order@[q] as int]);
                    }
                }
            }
        }
        let ghost old_order = order@;
        order.insert(p, t);
        proof {
            assert forall|k: usize| k < t + 1 implies #[trigger] order@.contains(k) by {
                if k == t {
                    assert(order@[p as int] == t);
                } else {
                    assert(old_order.contains(k));
                    let j = choose|j: int| 0 <= j < old_order.len() && old_order[j] == k;
                    if j < p {
                        assert(order@[j] == k);
                    } else {
                        assert(order@[j + 1] == k);
                    }
                }
            }
            assert forall|i: int, j: int|
                0 <= i < j < order@.len() implies #[trigger] key_before(ks, order@[i], order@[j]) by {
                if j < p {
                    assert(key_before(ks, old_order[i], old_order[j]));
                } else if j == p {
                    lemma_chars_lt_total(ks[old_order[i] as int], ks[t as int]);
                } else if i < p {
                    assert(chars_lt(ks[t as int], ks[old_order[j - 1] as int]));
                    lemma_chars_lt_total(ks[old_order[i] as int], ks[t as int]);
                    if chars_lt(ks[old_order[i] as int], ks[t as int]) {
                        lemma_chars_lt_transitive(ks[old_order[i] as int], ks[t as int], ks[old_order[j - 1] as int]);
                    }
                } else if i == p {
                    assert(chars_lt(ks[t as int], ks[old_order[j - 1] as int]));
                } else {
                    assert(key_before(ks, old_order[i - 1], old_order[j - 1]));
                }
            }
        }
        t += 1;
    }
    order
}

/// Texts stably sorted by themselves ascend: each is before or equal to the
/// next.
pub proof fn lemma_sorted_texts_ascend(items: Seq<Seq<char>>, out: Seq<Seq<char>>)
    requires
        stable_sorted_by_key(items, items, out),
    ensures
        forall|i: int, j: int|
            0 <= i < j < out.len() ==> chars_lt(#[trigger] out[i], #[trigger] out[j]) || out[i] == out[j],
{
    let order = choose|order: Seq<usize>|
        #![trigger is_key_order(items, order)]
        is_key_order(items, order) && out.len() == order.len() && forall|i: int|
            0 <= i < out.len() ==> out[i] == items[#[trigger] order[i] as int];
    assert forall|i: int, j: int| 0 <= i < j < out.len() implies chars_lt(
        #[trigger] out[i],
        #[trigger] out[j],
    ) || out[i] == out[j] by {
        assert(key_before(items, order[i], order[j]));
    }
}

/// A stable sort by keys, one key per item, keeps the items: the sorted
/// sequence is as long as the items and holds exactly the same values.
pub proof fn lemma_stable_sorted_same_members<T>(items: Seq<T>, keys: Seq<Seq<char>>, out: Seq<T>)
    requires
        stable_sorted_by_key(items, keys, out),
        items.len() == keys.len(),
        items.len() <= usize::MAX,
    ensures
        out.len() == items.len(),
        forall|x: T| #[trigger] out.contains(x) <==> items.contains(x),
{
    let order = choose|order: Seq<usize>|
        #![trigger is_key_order(keys, order)]
        is_key_order(keys, order) && out.len() == order.len() && forall|i: int|
            0 <= i < out.len() ==> out[i] == items[#[trigger] order[i] as int];
    assert forall|x: T| #[trigger] out.contains(x) <==> items.contains(x) by {
        if out.contains(x) {
            let i = choose|i: int| 0 <= i < out.len() && out[i] == x;
            assert(order[i] < keys.len());
            assert(items[order[i] as int] == x);
        }
        if items.contains(x) {
            let k = choose|k: int| 0 <= k < items.len() && items[k] == x;
            assert(order.contains(k as usize));
            let i = choose|i: int| 0 <= i < order.len() && order[i] == k as usize;
            assert(out[i] == items[order[i] as int]);
        }
    }
}

/// A text in which a pattern does not occur is left as it is by its
/// replacement.
pub proof fn lemma_replace_absent(s: Seq<char>, pat: Seq<char>, to: Seq<char>)
    requires
        pat.len() > 0,
        !contains_seq(s, pat),
    ensures
        replace_all(s, pat, to) == s,
    decreases s.len(),
{
    if s.len() > 0 {
        assert(!starts_with(s, pat)) by {
            if starts_with(s, pat) {
                assert(s.subrange(0, 0 + pat.len() as int) == pat);
            }
        }
        let rest = s.drop_first();
        assert(!contains_seq(rest, pat)) by {
            if contains_seq(rest, pat) {
                let i = choose|i: int|
                    0 <= i && i + pat.len() <= rest.len() && #[trigger] rest.subrange(i, i + pat.len()) == pat;
                assert(s.subrange(i + 1, i + 1 + pat.len()) =~= rest.subrange(i, i + pat.len()));
            }
        }
        lemma_replace_absent(rest, pat, to);
        assert(seq![s[0]] + rest =~= s);
    }
}

/// No place comes before itself, and of two places at most one comes before
/// the other.
pub proof fn lemma_key_before_strict(keys: Seq<Seq<char>>, a: usize, b: usize)
    requires
        a < keys.len(),
        b < keys.len(),
    ensures
        !key_before(keys, a, a),
        !(key_before(keys, a, b) && key_before(keys, b, a)),
{
    lemma_chars_lt_total(keys[a as int], keys[b as int]);
    lemma_chars_lt_total(keys[a as int], keys[a as int]);
    lemma_chars_lt_total(keys[b as int], keys[b as int]);
}

/// Two key orders of the same keys agree on their first `i` places.
proof fn lemma_key_orders_agree_upto(keys: Seq<Seq<char>>, o1: Seq<usize>, o2: Seq<usize>, i: int)
    requires
        is_key_order(keys, o1),
        is_key_order(keys, o2),
        0 <= i <= o1.len(),
    ensures
        forall|j: int| 0 <= j < i ==> o1[j] == o2[j],
    decreases i,
{
    if i > 0 {
        lemma_key_orders_agree_upto(keys, o1, o2, i - 1);
        let m = i - 1;
        let a = o1[m];
        let b = o2[m];
        if a != b {
            assert(o1.contains(b));
            assert(o2.contains(a));
            let p = choose|p: int| 0 <= p < o1.len() && o1[p] == b;
            let q = choose|q: int| 0 <= q < o2.len() && o2[q] == a;
            lemma_key_before_strict(keys, a, b);
            if p < m {
                assert(o2[p] == b);
                assert(key_before(keys, o2[p], o2[m]));
                lemma_key_before_strict(keys, b, b);
            } else if q < m {
                assert(o1[q] == a);
                assert(key_before(keys, o1[q], o1[m]));
                lemma_key_before_strict(keys, a, a);
            } else {
                assert(p != m && q != m);
                assert(key_before(keys, o1[m], o1[p]));
                assert(key_before(keys, o2[m], o2[q]));
            }
        }
    }
}

/// The key order of given keys is unique.
pub proof fn lemma_key_order_unique(keys: Seq<Seq<char>>, o1: Seq<usize>, o2: Seq<usize>)
    requires
        is_key_order(keys, o1),
        is_key_order(keys, o2),
    ensures
        o1 == o2,
{
    lemma_key_orders_agree_upto(keys, o1, o2, o1.len() as int);
    assert(o1 =~= o2);
}

/// A stable sort has one outcome: two sequences that are both `items`
/// stably sorted by `keys` are equal.
pub proof fn lemma_stable_sorted_unique<T>(items: Seq<T>, keys: Seq<Seq<char>>, out1: Seq<T>, out2: Seq<T>)
    requires
        stable_sorted_by_key(items, keys, out1),
        stable_sorted_by_key(items, keys, out2),
    ensures
        out1 == out2,
{
    let o1 = choose|order: Seq<usize>|
        #![trigger is_key_order(keys, order)]
        is_key_order(keys, order) && out1.len() == order.len() && forall|i: int|
            0 <= i < out1.len() ==> out1[i] == items[#[trigger] order[i] as int];
    let o2 = choose|order: Seq<usize>|
        #![trigger is_key_order(keys, order)]
        is_key_order(keys, order) && out2.len() == order.len() && forall|i: int|
            0 <= i < out2.len() ==> out2[i] == items[#[trigger] order[i] as int];
    lemma_key_order_unique(keys, o1, o2);
    assert forall|i: int| 0 <= i < out1.len() implies out1[i] == out2[i] by {
        assert(out1[i] == items[o1[i] as int]);
        assert(out2[i] == items[o2[i] as int]);
    }
    assert(out1 =~= out2);
}

} // verus!
