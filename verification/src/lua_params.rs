//! Script parameters declared in Lua scripts, as in `local speed = 10`,
//! `jumpForce = 5.0` or `name = "Player"`.

use vstd::prelude::*;
use crate::text::{
    chars_of, has_char, is_char, lemma_trim_end_by_shape, starts_with, string_of_range, trim,
    trim_by, trim_end_by, trim_end_char_range, trim_range, trim_start_char_range,
};

verus! {

/// Value of a declared script parameter, as written in the script.
pub enum LuaValue {
    /// A quoted value, without its quotes and trailing commas.
    Text(String),
    /// `true` or `false`.
    Bool(bool),
    /// `nil`: a reference to an entity that is not set yet.
    Nil,
    /// Any other value, which is a parameter when it reads as a number:
    /// the text without trailing commas, and whether the written value holds
    /// a decimal point (a number with one is fractional, one without is an
    /// integer).
    Number { text: String, has_dot: bool },
}

/// A variable declared in a script and the value assigned to it.
pub struct LuaAssignment {
    pub name: String,
    pub value: LuaValue,
}

/// The value of a declared parameter, as text.
pub enum LuaValueModel {
    Text(Seq<char>),
    Bool(bool),
    Nil,
    Number(Seq<char>, bool),
}

/// A declared parameter, as text.
pub struct LuaAssignmentModel {
    pub name: Seq<char>,
    pub value: LuaValueModel,
}

impl View for LuaValue {
    type V = LuaValueModel;

    open spec fn view(&self) -> LuaValueModel {
        match self {
            LuaValue::Text(t) => LuaValueModel::Text(t@),
            LuaValue::Bool(b) => LuaValueModel::Bool(*b),
            LuaValue::Nil => LuaValueModel::Nil,
            LuaValue::Number { text, has_dot } => LuaValueModel::Number(text@, *has_dot),
        }
    }
}

impl View for LuaAssignment {
    type V = LuaAssignmentModel;

    open spec fn view(&self) -> LuaAssignmentModel {
        LuaAssignmentModel { name: self.name@, value: self.value@ }
    }
}

/// Place of the first `c` in `s`, or the length of `s` when it has none.
pub open spec fn index_of_first(s: Seq<char>, c: char) -> nat
    decreases s.len(),
{
    if s.len() == 0 {
        0
    } else if s[0] == c {
        0
    } else {
        1 + index_of_first(s.drop_first(), c)
    }
}

/// The first `c` is at `k` when none comes before `k` and `k` holds one or
/// ends `s`.
proof fn lemma_index_of_first(s: Seq<char>, c: char, k: int)
    requires
        0 <= k <= s.len(),
        forall|i: int| 0 <= i < k ==> s[i] != c,
        k == s.len() || s[k] == c,
    ensures
        index_of_first(s, c) == k,
    decreases k,
{
    if k > 0 {
        lemma_index_of_first(s.drop_first(), c, k - 1);
    }
}

/// The first `c` lies within `s`, and holds `c` when it is inside.
proof fn lemma_index_of_first_bound(s: Seq<char>, c: char)
    ensures
        index_of_first(s, c) <= s.len(),
        index_of_first(s, c) < s.len() ==> s[index_of_first(s, c) as int] == c,
    decreases s.len(),
{
    if s.len() > 0 && s[0] != c {
        lemma_index_of_first_bound(s.drop_first(), c);
    }
}

/// The text `--` that starts a comment.
pub open spec fn comment_mark() -> Seq<char> {
    seq!['-', '-']
}

/// The keyword `local`.
pub open spec fn local_keyword() -> Seq<char> {
    seq!['l', 'o', 'c', 'a', 'l']
}

/// How the text right of `=` reads as a parameter value.
pub open spec fn classify_value(v: Seq<char>) -> LuaValueModel {
    if v.len() > 0 && (v[0] == '"' || v[0] == '\'') {
        LuaValueModel::Text(
            trim_end_by(trim_by(trim_by(v, is_char('"')), is_char('\'')), is_char(',')),
        )
    } else if v == seq!['t', 'r', 'u', 'e'] {
        LuaValueModel::Bool(true)
    } else if v == seq!['f', 'a', 'l', 's', 'e'] {
        LuaValueModel::Bool(false)
    } else if trim_end_by(v, is_char(',')) == seq!['n', 'i', 'l'] {
        LuaValueModel::Nil
    } else {
        LuaValueModel::Number(trim_end_by(v, is_char(',')), has_char(v, '.'))
    }
}

/// The parameter that one line of a script declares, if any: the line is
/// trimmed; comment lines (starting with `--`) and lines without `=` declare
/// nothing; left of the first `=` is the variable, without a leading `local`;
/// a variable that is empty or holds a space is no parameter.
pub open spec fn parse_line(line: Seq<char>) -> Option<LuaAssignmentModel> {
    let t = trim(line);
    let eq = index_of_first(t, '=') as int;
    if starts_with(t, comment_mark()) || eq >= t.len() {
        None
    } else {
        let var_part = trim(t.subrange(0, eq));
        let value = trim(t.subrange(eq + 1, t.len() as int));
        let name = trim(
            if starts_with(var_part, local_keyword()) {
                var_part.subrange(5, var_part.len() as int)
            } else {
                var_part
            },
        );
        if name.len() == 0 || has_char(name, ' ') {
            None
        } else {
            Some(LuaAssignmentModel { name, value: classify_value(value) })
        }
    }
}

/// The parameters that a script declares, line by line in order.
pub open spec fn assignments_of(s: Seq<char>) -> Seq<LuaAssignmentModel>
    decreases s.len(),
{
    let k = index_of_first(s, '\n') as int;
    let here = match parse_line(s.subrange(0, k)) {
        Some(a) => seq![a],
        None => Seq::empty(),
    };
    if k >= s.len() {
        here
    } else {
        here + assignments_of(s.subrange(k + 1, s.len() as int))
    }
}

/// Whether a number's text is free of trailing commas: it is empty or its
/// last character is no comma.
pub open spec fn no_trailing_comma(t: Seq<char>) -> bool {
    t.len() == 0 || t.last() != ','
}

/// A value read as a possible number keeps the value's text up to the commas
/// that end it (`speed = 10,` gives `10`): the number's text starts the
/// value, only commas follow it, it does not end with a comma itself, and it
/// is marked as holding a dot exactly when the value holds one. A value read
/// as text does not end with a comma either.
pub proof fn lemma_value_without_trailing_commas(v: Seq<char>)
    ensures
        classify_value(v) matches LuaValueModel::Number(t, dot) ==> {
            &&& t.len() <= v.len()
            &&& v.subrange(0, t.len() as int) == t
            &&& forall|k: int| t.len() <= k < v.len() ==> #[trigger] v[k] == ','
            &&& no_trailing_comma(t)
            &&& dot == has_char(v, '.')
        },
        classify_value(v) matches LuaValueModel::Text(t) ==> no_trailing_comma(t),
{
    lemma_trim_end_by_shape(v, is_char(','));
    if v.len() > 0 && (v[0] == '"' || v[0] == '\'') {
        lemma_trim_end_by_shape(trim_by(trim_by(v, is_char('"')), is_char('\'')), is_char(','));
    }
}

/// Every parameter that a script declares as a possible number has a text
/// that does not end with a comma, whatever the line around it.
pub proof fn lemma_declared_numbers_without_trailing_commas(s: Seq<char>)
    ensures
        forall|i: int|
            0 <= i < assignments_of(s).len() ==> ((#[trigger] assignments_of(s)[i]).value matches
                LuaValueModel::Number(t, _) ==> no_trailing_comma(t)),
    decreases s.len(),
{
    let k = index_of_first(s, '\n') as int;
    lemma_index_of_first_bound(s, '\n');
    let line = s.subrange(0, k);
    let t = trim(line);
    let eq = index_of_first(t, '=') as int;
    lemma_value_without_trailing_commas(trim(t.subrange(eq + 1, t.len() as int)));
    if k < s.len() {
        lemma_declared_numbers_without_trailing_commas(s.subrange(k + 1, s.len() as int));
    }
}

/// Whether `s[a..b]` holds `c`.
fn range_has_char(s: &Vec<char>, a: usize, b: usize, c: char) -> (r: bool)
    requires
        a <= b <= s@.len(),
    ensures
        r == has_char(s@.subrange(a as int, b as int), c),
{
    let mut i = a;
    while i < b
        invariant
            a <= i <= b <= s@.len(),
            forall|k: int| a <= k < i ==> s@[k] != c,
        decreases b - i,
    {
        if s[i] == c {
            assert(s@.subrange(a as int, b as int)[i - a] == c);
            return true;
        }
        i += 1;
    }
    proof {
        let x = s@.subrange(a as int, b as int);
        assert forall|k: int| 0 <= k < x.len() implies x[k] != c by {
            assert(x[k] == s@[a + k]);
        }
    }
    false
}

/// Whether `s[a..b]` spells `word`.
fn range_is(s: &Vec<char>, a: usize, b: usize, word: &Vec<char>) -> (r: bool)
    requires
        a <= b <= s@.len(),
    ensures
        r == (s@.subrange(a as int, b as int) == word@),
{
    if b - a != word.len() {
        proof {
            assert(s@.subrange(a as int, b as int).len() != word@.len());
        }
        return false;
    }
    let mut i: usize = 0;
    while i < word.len()
        invariant
            a <= b <= s@.len(),
            b - a == word@.len(),
            i <= word@.len(),
            forall|k: int| 0 <= k < i ==> s@[a + k] == word@[k],
        decreases word@.len() - i,
    {
        if s[a + i] != word[i] {
            proof {
                assert(s@.subrange(a as int, b as int)[i as int] != word@[i as int]);
            }
            return false;
        }
        i += 1;
    }
    proof {
        assert(s@.subrange(a as int, b as int) =~= word@);
    }
    true
}

/// Whether `s[a..b]` begins with `word`.
fn range_starts_with(s: &Vec<char>, a: usize, b: usize, word: &Vec<char>) -> (r: bool)
    requires
        a <= b <= s@.len(),
    ensures
        r == starts_with(s@.subrange(a as int, b as int), word@),
{
    if b - a < word.len() {
        return false;
    }
    let r = range_is(s, a, a + word.len(), word);
    proof {
        let x = s@.subrange(a as int, b as int);
        assert(x.subrange(0, word@.len() as int) =~= s@.subrange(a as int, a + word@.len()));
    }
    r
}

/// The parameter value written in `s[a..b]` (already trimmed).
fn classify_value_range(s: &Vec<char>, a: usize, b: usize) -> (v: LuaValue)
    requires
        a <= b <= s@.len(),
    ensures
        v@ == classify_value(s@.subrange(a as int, b as int)),
{
    let ghost x = s@.subrange(a as int, b as int);
    let true_word: Vec<char> = vec!['t', 'r', 'u', 'e'];
    let false_word: Vec<char> = vec!['f', 'a', 'l', 's', 'e'];
    let nil_word: Vec<char> = vec!['n', 'i', 'l'];
    if a < b && (s[a] == '"' || s[a] == '\'') {
        proof {
            assert(x[0] == s@[a as int]);
        }
        let a1 = trim_start_char_range(s, a, b, '"');
        let b1 = trim_end_char_range(s, a1, b, '"');
        let a2 = trim_start_char_range(s, a1, b1, '\'');
        let b2 = trim_end_char_range(s, a2, b1, '\'');
        let b3 = trim_end_char_range(s, a2, b2, ',');
        LuaValue::Text(string_of_range(s, a2, b3))
    } else {
        proof {
            assert(x.len() > 0 ==> x[0] == s@[a as int]);
        }
        if range_is(s, a, b, &true_word) {
            LuaValue::Bool(true)
        } else if range_is(s, a, b, &false_word) {
            LuaValue::Bool(false)
        } else {
            let e = trim_end_char_range(s, a, b, ',');
            if range_is(s, a, e, &nil_word) {
                LuaValue::Nil
            } else {
                let has_dot = range_has_char(s, a, b, '.');
                LuaValue::Number { text: string_of_range(s, a, e), has_dot }
            }
        }
    }
}

/// The parameter that the line `s[a..b]` declares, if any.
fn parse_line_range(s: &Vec<char>, a: usize, b: usize) -> (r: Option<LuaAssignment>)
    requires
        a <= b <= s@.len(),
    ensures
        match parse_line(s@.subrange(a as int, b as int)) {
            Some(m) => r matches Some(x) && x@ == m,
            None => r is None,
        },
{
    let ghost line = s@.subrange(a as int, b as int);
    let (ta, tb) = trim_range(s, a, b);
    let ghost t = s@.subrange(ta as int, tb as int);
    let comment: Vec<char> = vec!['-', '-'];
    if range_starts_with(s, ta, tb, &comment) {
        return None;
    }
    let mut eq = ta;
    while eq < tb && s[eq] != '='
        invariant
            ta <= eq <= tb <= s@.len(),
            forall|k: int| ta <= k < eq ==> s@[k] != '=',
        decreases tb - eq,
    {
        eq += 1;
    }
    proof {
        assert forall|k: int| 0 <= k < eq - ta implies t[k] != '=' by {
            assert(t[k] == s@[ta + k]);
        }
        if eq < tb {
            assert(t[eq - ta] == s@[eq as int]);
        }
        lemma_index_of_first(t, '=', eq - ta);
    }
    if eq >= tb {
        return None;
    }
    let (va, vb) = trim_range(s, ta, eq);
    let (xa, xb) = trim_range(s, eq + 1, tb);
    proof {
        assert(t.subrange(0, eq - ta) =~= s@.subrange(ta as int, eq as int));
        assert(t.subrange(eq - ta + 1, t.len() as int) =~= s@.subrange(eq + 1, tb as int));
    }
    let local: Vec<char> = vec!['l', 'o', 'c', 'a', 'l'];
    let na = if range_starts_with(s, va, vb, &local) {
        proof {
            let vp = s@.subrange(va as int, vb as int);
            assert(vp.subrange(5, vp.len() as int) =~= s@.subrange(va + 5, vb as int));
        }
        va + 5
    } else {
        va
    };
    let (ka, kb) = trim_range(s, na, vb);
    if ka == kb || range_has_char(s, ka, kb, ' ') {
        return None;
    }
    let name = string_of_range(s, ka, kb);
    let value = classify_value_range(s, xa, xb);
    Some(LuaAssignment { name, value })
}

/// The parameters that the source text of a Lua script declares, in the
/// order of their lines: every line `name = value` or `local name = value`
/// whose variable is a plain name, outside comment lines. The value is
/// classified as text, a boolean, `nil` or a possible number (see
/// [`LuaValue`]).
pub fn parse_lua_script_source(content: &str) -> (out: Vec<LuaAssignment>)
    ensures
        out@.len() == assignments_of(content@).len(),
        forall|i: int| 0 <= i < out@.len() ==> #[trigger] out@[i]@ == assignments_of(content@)[i],
        forall|i: int|
            0 <= i < out@.len() ==> ((#[trigger] out@[i]@).value matches LuaValueModel::Number(t, _)
                ==> no_trailing_comma(t)),
{
    proof {
        lemma_declared_numbers_without_trailing_commas(content@);
    }
    let s = chars_of(content);
    let n = s.len();
    let mut out: Vec<LuaAssignment> = Vec::new();
    let ghost mut done: Seq<LuaAssignmentModel> = Seq::empty();
    let mut start: usize = 0;
    proof {
        assert(s@.subrange(0, n as int) =~= s@);
        assert(done + assignments_of(s@) =~= assignments_of(s@));
    }
    loop
        invariant_except_break
            done + assignments_of(s@.subrange(start as int, n as int)) == assignments_of(s@),
        invariant
            s@ == content@,
            n == s@.len(),
            start <= n,
            out@.len() == done.len(),
            forall|i: int| 0 <= i < out@.len() ==> #[trigger] out@[i]@ == done[i],
        ensures
            out@.len() == assignments_of(s@).len(),
            forall|i: int| 0 <= i < out@.len() ==> #[trigger] out@[i]@ == assignments_of(s@)[i],
        decreases n - start,
    {
        let ghost rest = s@.subrange(start as int, n as int);
        let mut k = start;
        while k < n && s[k] != '\n'
            invariant
                start <= k <= n == s@.len(),
                forall|q: int| start <= q < k ==> s@[q] != '\n',
            decreases n - k,
        {
            k += 1;
        }
        proof {
            assert forall|q: int| 0 <= q < k - start implies rest[q] != '\n' by {
                assert(rest[q] == s@[start + q]);
            }
            if k < n {
                assert(rest[k - start] == s@[k as int]);
            }
            lemma_index_of_first(rest, '\n', k - start);
            assert(rest.subrange(0, k - start) =~= s@.subrange(start as int, k as int));
        }
        let parsed = parse_line_range(&s, start, k);
        let ghost here = match parse_line(rest.subrange(0, k - start)) {
            Some(a) => seq![a],
            None => Seq::<LuaAssignmentModel>::empty(),
        };
        match parsed {
            Some(a) => {
                out.push(a);
            },
            None => {},
        }
        proof {
            done = done + here;
        }
        if k >= n {
            proof {
                assert(assignments_of(rest) == here);
                assert(done =~= assignments_of(s@));
            }
            break;
        }
        proof {
            assert(rest.subrange(k - start + 1, rest.len() as int) =~= s@.subrange(k + 1, n as int));
            assert(assignments_of(rest) == here + assignments_of(s@.subrange(k + 1, n as int)));
            assert(done + assignments_of(s@.subrange(k + 1, n as int)) =~= assignments_of(s@));
        }
        start = k + 1;
    }
    out
}

} // verus!
