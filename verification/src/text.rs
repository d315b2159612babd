//! Character-level text cleanup used by the field extractor.
//!
//! Every function of this module is a pure computation on characters: the
//! spec functions say what each cleanup step means on `Seq<char>`, and the
//! executable functions are proved to return exactly those values.

use vstd::prelude::*;

verus! {

/// Whitespace characters stripped from the ends of extracted text.
pub open spec fn is_space(c: char) -> bool {
    c == ' ' || c == '\t' || c == '\n' || c == '\r' || c == '\u{0b}' || c == '\u{0c}'
        || c == '\u{85}' || c == '\u{a0}'
}

/// `s` without its leading whitespace.
pub open spec fn trim_front(s: Seq<char>) -> Seq<char>
    decreases s.len(),
{
    if s.len() == 0 {
        s
    } else if is_space(s[0]) {
        trim_front(s.skip(1))
    } else {
        s
    }
}

/// `s` without its trailing whitespace.
pub open spec fn trim_back(s: Seq<char>) -> Seq<char>
    decreases s.len(),
{
    if s.len() == 0 {
        s
    } else if is_space(s[s.len() - 1]) {
        trim_back(s.take(s.len() - 1))
    } else {
        s
    }
}

/// `s` without leading and trailing whitespace.
pub open spec fn trimmed(s: Seq<char>) -> Seq<char> {
    trim_back(trim_front(s))
}

/// `s` with every parenthesis character removed.
pub open spec fn strip_parens(s: Seq<char>) -> Seq<char>
    decreases s.len(),
{
    if s.len() == 0 {
        s
    } else if s[0] == '(' || s[0] == ')' {
        strip_parens(s.skip(1))
    } else {
        seq![s[0]] + strip_parens(s.skip(1))
    }
}

/// The literal characters of a line-break tag.
pub open spec fn br_tag() -> Seq<char> {
    seq!['<', 'b', 'r', '>']
}

/// Markup normalization applied to a row group before re-parsing it:
/// line-break tags disappear, the rightwards-arrow glyph becomes the two
/// ASCII characters `->`, and the circled information glyph disappears.
pub open spec fn normalize_markup(s: Seq<char>) -> Seq<char>
    decreases s.len(),
{
    if s.len() == 0 {
        s
    } else if s.len() >= 4 && s.subrange(0, 4) == br_tag() {
        normalize_markup(s.skip(4))
    } else if s[0] == '\u{21d2}' {
        seq!['-', '>'] + normalize_markup(s.skip(1))
    } else if s[0] == '\u{24d8}' {
        normalize_markup(s.skip(1))
    } else {
        seq![s[0]] + normalize_markup(s.skip(1))
    }
}

/// The concatenation of all elements of `parts`, in order.
pub open spec fn concat_all<A>(parts: Seq<Seq<A>>) -> Seq<A>
    decreases parts.len(),
{
    if parts.len() == 0 {
        Seq::empty()
    } else {
        parts[0] + concat_all(parts.skip(1))
    }
}

/// The elements of `parts` joined by `sep`.
pub open spec fn join_with(parts: Seq<Seq<char>>, sep: Seq<char>) -> Seq<char>
    decreases parts.len(),
{
    if parts.len() == 0 {
        Seq::empty()
    } else if parts.len() == 1 {
        parts[0]
    } else {
        parts[0] + sep + join_with(parts.skip(1), sep)
    }
}

/// ASCII lowercasing of one character; any other character is unchanged.
pub open spec fn lower_char(c: char) -> char {
    match c {
        'A' => 'a',
        'B' => 'b',
        'C' => 'c',
        'D' => 'd',
        'E' => 'e',
        'F' => 'f',
        'G' => 'g',
        'H' => 'h',
        'I' => 'i',
        'J' => 'j',
        'K' => 'k',
        'L' => 'l',
        'M' => 'm',
        'N' => 'n',
        'O' => 'o',
        'P' => 'p',
        'Q' => 'q',
        'R' => 'r',
        'S' => 's',
        'T' => 't',
        'U' => 'u',
        'V' => 'v',
        'W' => 'w',
        'X' => 'x',
        'Y' => 'y',
        'Z' => 'z',
        _ => c,
    }
}

/// ASCII lowercasing of a whole character sequence.
pub open spec fn lowered(s: Seq<char>) -> Seq<char> {
    s.map_values(|c: char| lower_char(c))
}

fn is_space_char(c: char) -> (b: bool)
    ensures
        b == is_space(c),
{
    c == ' ' || c == '\t' || c == '\n' || c == '\r' || c == '\u{0b}' || c == '\u{0c}'
        || c == '\u{85}' || c == '\u{a0}'
}

fn lower_char_x(c: char) -> (r: char)
    ensures
        r == lower_char(c),
{
    match c {
        'A' => 'a',
        'B' => 'b',
        'C' => 'c',
        'D' => 'd',
        'E' => 'e',
        'F' => 'f',
        'G' => 'g',
        'H' => 'h',
        'I' => 'i',
        'J' => 'j',
        'K' => 'k',
        'L' => 'l',
        'M' => 'm',
        'N' => 'n',
        'O' => 'o',
        'P' => 'p',
        'Q' => 'q',
        'R' => 'r',
        'S' => 's',
        'T' => 't',
        'U' => 'u',
        'V' => 'v',
        'W' => 'w',
        'X' => 'x',
        'Y' => 'y',
        'Z' => 'z',
        _ => c,
    }
}

/// The characters of `s`, in order.
pub fn str_chars(s: &str) -> (r: Vec<char>)
    ensures
        r@ == s@,
{
    let mut r: Vec<char> = Vec::new();
    for c in it: s.chars()
        invariant
            it.seq() == s@,
            r@ == it.seq().take(it.index() as int),
    {
        r.push(c);
    }
    proof {
        assert(r@ =~= s@);
    }
    r
}

/// Whether the characters of `v` are exactly those of `t`.
pub fn chars_eq_str(v: &Vec<char>, t: &str) -> (b: bool)
    ensures
        b == (v@ == t@),
{
    let n = t.unicode_len();
    if v.len() != n {
        return false;
    }
    for i in 0..n
        invariant
            n == t@.len(),
            v@.len() == n,
            forall|j: int| 0 <= j < i ==> v@[j] == t@[j],
    {
        if v[i] != t.get_char(i) {
            return false;
        }
    }
    proof {
        assert(v@ =~= t@);
    }
    true
}

/// ASCII lowercasing of every character of `v`.
pub fn lower_chars(v: &Vec<char>) -> (r: Vec<char>)
    ensures
        r@ == lowered(v@),
{
    let mut r: Vec<char> = Vec::new();
    for i in 0..v.len()
        invariant
            r@.len() == i,
            forall|j: int| 0 <= j < i ==> r@[j] == lower_char(v@[j]),
    {
        r.push(lower_char_x(v[i]));
    }
    proof {
        assert(r@ =~= lowered(v@));
    }
    r
}

proof fn lemma_trim_front_is_skip(s: Seq<char>, a: int)
    requires
        0 <= a <= s.len(),
        forall|j: int| 0 <= j < a ==> is_space(s[j]),
        a < s.len() ==> !is_space(s[a]),
    ensures
        trim_front(s) == s.skip(a),
    decreases a,
{
    if a == 0 {
        assert(s.skip(0) =~= s);
    } else {
        lemma_trim_front_is_skip(s.skip(1), a - 1);
        assert(s.skip(1).skip(a - 1) =~= s.skip(a));
    }
}

proof fn lemma_trim_back_is_take(s: Seq<char>, b: int)
    requires
        0 <= b <= s.len(),
        forall|j: int| b <= j < s.len() ==> is_space(s[j]),
        b > 0 ==> !is_space(s[b - 1]),
    ensures
        trim_back(s) == s.take(b),
    decreases s.len(),
{
    if b == s.len() {
        assert(s.take(b) =~= s);
    } else {
        lemma_trim_back_is_take(s.take(s.len() - 1), b);
        assert(s.take(s.len() - 1).take(b) =~= s.take(b));
    }
}

/// `v` without leading and trailing whitespace.
pub fn trim_chars(v: &Vec<char>) -> (r: Vec<char>)
    ensures
        r@ == trimmed(v@),
{
    let len = v.len();
    let mut a: usize = 0;
    while a < len && is_space_char(v[a])
        invariant
            0 <= a <= len,
            len == v@.len(),
            forall|j: int| 0 <= j < a ==> is_space(v@[j]),
        decreases len - a,
    {
        a = a + 1;
    }
    if a == len {
        proof {
            lemma_trim_front_is_skip(v@, a as int);
            assert(v@.skip(len as int) =~= Seq::<char>::empty());
        }
        return Vec::new();
    }
    let mut b: usize = len;
    while b > a + 1 && is_space_char(v[b - 1])
        invariant
            a < b <= len,
            len == v@.len(),
            forall|j: int| b <= j < len ==> is_space(v@[j]),
        decreases b,
    {
        b = b - 1;
    }
    // v[a] is not a space, so if v[b - 1] is still a space then b == a + 1
    // cannot hold; the scan stopped because v[b - 1] is not a space.
    let mut r: Vec<char> = Vec::new();
    for i in a..b
        invariant
            a < b <= len,
            len == v@.len(),
            r@ =~= v@.subrange(a as int, i as int),
    {
        r.push(v[i]);
    }
    proof {
        lemma_trim_front_is_skip(v@, a as int);
        let f = v@.skip(a as int);
        assert(!is_space(v@[a as int]));
        assert(f[0] == v@[a as int]);
        assert(b == a + 1 ==> !is_space(f[(b - a - 1) as int]));
        lemma_trim_back_is_take(f, b - a);
        assert(f.take(b - a) =~= v@.subrange(a as int, b as int));
    }
    r
}

/// `v` with every parenthesis character removed.
pub fn strip_paren_chars(v: &Vec<char>) -> (r: Vec<char>)
    ensures
        r@ == strip_parens(v@),
{
    let mut r: Vec<char> = Vec::new();
    let len = v.len();
    let mut i: usize = 0;
    proof {
        assert(v@.skip(0) =~= v@);
        assert(r@ + strip_parens(v@) =~= strip_parens(v@));
    }
    while i < len
        invariant
            0 <= i <= len,
            len == v@.len(),
            strip_parens(v@) == r@ + strip_parens(v@.skip(i as int)),
        decreases len - i,
    {
        proof {
            let rest = v@.skip(i as int);
            assert(rest[0] == v@[i as int]);
            assert(rest.skip(1) =~= v@.skip(i as int + 1));
        }
        let c = v[i];
        if c != '(' && c != ')' {
            r.push(c);
            proof {
                assert(seq![v@[i as int]] + strip_parens(v@.skip(i as int + 1)) == strip_parens(
                    v@.skip(i as int),
                ));
                assert(r@ + strip_parens(v@.skip(i as int + 1)) =~= strip_parens(v@));
            }
        }
        i = i + 1;
    }
    proof {
        assert(v@.skip(len as int) =~= Seq::<char>::empty());
        assert(r@ =~= strip_parens(v@));
    }
    r
}

/// `v` with the markup normalization of [`normalize_markup`] applied.
pub fn normalize_chars(v: &Vec<char>) -> (r: Vec<char>)
    ensures
        r@ == normalize_markup(v@),
{
    let mut r: Vec<char> = Vec::new();
    let len = v.len();
    let mut i: usize = 0;
    proof {
        assert(v@.skip(0) =~= v@);
        assert(r@ + normalize_markup(v@) =~= normalize_markup(v@));
    }
    while i < len
        invariant
            0 <= i <= len,
            len == v@.len(),
            normalize_markup(v@) == r@ + normalize_markup(v@.skip(i as int)),
        decreases len - i,
    {
        proof {
            let rest = v@.skip(i as int);
            assert(rest[0] == v@[i as int]);
            assert(rest.skip(1) =~= v@.skip(i as int + 1));
        }
        let br = len - i >= 4 && v[i] == '<' && v[i + 1] == 'b' && v[i + 2] == 'r' && v[i + 3]
            == '>';
        proof {
            let rest = v@.skip(i as int);
            if i + 4 <= len {
                assert(rest.len() >= 4);
                if br {
                    assert(rest.subrange(0, 4) =~= br_tag());
                    assert(rest.skip(4) =~= v@.skip(i as int + 4));
                } else {
                    assert(rest.subrange(0, 4)[0] == v@[i as int]);
                    assert(rest.subrange(0, 4)[1] == v@[i as int + 1]);
                    assert(rest.subrange(0, 4)[2] == v@[i as int + 2]);
                    assert(rest.subrange(0, 4)[3] == v@[i as int + 3]);
                    assert(rest.subrange(0, 4) != br_tag());
                }
            } else {
                assert(rest.len() < 4);
            }
        }
        if br {
            i = i + 4;
        } else {
            let c = v[i];
            if c == '\u{21d2}' {
                r.push('-');
                r.push('>');
            } else if c == '\u{24d8}' {
                // the information glyph disappears: nothing is emitted
            } else {
                r.push(c);
            }
            proof {
                assert(r@ + normalize_markup(v@.skip(i as int + 1)) =~= normalize_markup(v@));
            }
            i = i + 1;
        }
    }
    proof {
        assert(v@.skip(len as int) =~= Seq::<char>::empty());
        assert(r@ =~= normalize_markup(v@));
    }
    r
}

/// Appending one more part to a concatenation appends its characters.
pub proof fn lemma_concat_all_push<A>(parts: Seq<Seq<A>>, x: Seq<A>)
    ensures
        concat_all(parts.push(x)) == concat_all(parts) + x,
    decreases parts.len(),
{
    if parts.len() == 0 {
        assert(parts.push(x)[0] == x);
        assert(parts.push(x).skip(1) =~= Seq::<Seq<A>>::empty());
        assert(concat_all(parts.push(x)) == x + concat_all(Seq::<Seq<A>>::empty()));
        assert(x + Seq::<A>::empty() =~= x);
        assert(concat_all(parts) + x =~= x);
    } else {
        lemma_concat_all_push(parts.skip(1), x);
        assert(parts.push(x).skip(1) =~= parts.skip(1).push(x));
        assert(parts.push(x)[0] == parts[0]);
        assert(concat_all(parts.push(x)) == parts[0] + (concat_all(parts.skip(1)) + x));
        assert(parts[0] + (concat_all(parts.skip(1)) + x) =~= (parts[0] + concat_all(
            parts.skip(1),
        )) + x);
        assert(concat_all(parts) == parts[0] + concat_all(parts.skip(1)));
    }
}

/// Concatenation distributes over appending two part lists.
pub proof fn lemma_concat_all_add<A>(a: Seq<Seq<A>>, b: Seq<Seq<A>>)
    ensures
        concat_all(a + b) == concat_all(a) + concat_all(b),
    decreases a.len(),
{
    if a.len() == 0 {
        assert(a + b =~= b);
        assert(Seq::<A>::empty() + concat_all(b) =~= concat_all(b));
    } else {
        lemma_concat_all_add(a.skip(1), b);
        assert((a + b).skip(1) =~= a.skip(1) + b);
        assert((a + b)[0] == a[0]);
        assert(concat_all(a + b) == a[0] + (concat_all(a.skip(1)) + concat_all(b)));
        assert(a[0] + (concat_all(a.skip(1)) + concat_all(b)) =~= (a[0] + concat_all(a.skip(1)))
            + concat_all(b));
    }
}

proof fn lemma_join_with_push(parts: Seq<Seq<char>>, x: Seq<char>, sep: Seq<char>)
    requires
        parts.len() > 0,
    ensures
        join_with(parts.push(x), sep) == join_with(parts, sep) + sep + x,
    decreases parts.len(),
{
    if parts.len() == 1 {
        assert(parts.push(x).skip(1) =~= seq![x]);
        assert(join_with(seq![x], sep) == x);
        assert(parts.push(x)[0] == parts[0]);
        assert(join_with(parts.push(x), sep) == parts[0] + sep + x);
        assert(join_with(parts, sep) == parts[0]);
    } else {
        lemma_join_with_push(parts.skip(1), x, sep);
        assert(parts.push(x).skip(1) =~= parts.skip(1).push(x));
        assert(parts.push(x)[0] == parts[0]);
        assert(join_with(parts.push(x), sep) == parts[0] + sep + (join_with(parts.skip(1), sep)
            + sep + x));
        assert(parts[0] + sep + (join_with(parts.skip(1), sep) + sep + x) =~= (parts[0] + sep
            + join_with(parts.skip(1), sep)) + sep + x);
        assert(join_with(parts, sep) == parts[0] + sep + join_with(parts.skip(1), sep));
    }
}

/// Relies on `String`'s `FromIterator` implementation over `char`:
/// collecting characters yields the string of exactly those characters,
/// in order.
#[verifier::external_body]
pub(crate) fn chars_to_string(v: &Vec<char>) -> (r: String)
    ensures
        r@ == v@,
{
    v.iter().collect()
}

/// The concatenation of all strings of `parts`, in order.
pub fn concat_strings(parts: &Vec<String>) -> (r: String)
    ensures
        r@ == concat_all(parts.deep_view()),
{
    let mut r = String::new();
    for i in 0..parts.len()
        invariant
            r@ == concat_all(parts.deep_view().take(i as int)),
            parts.deep_view().len() == parts@.len(),
    {
        proof {
            assert(parts.deep_view().take(i as int).push(parts.deep_view()[i as int])
                =~= parts.deep_view().take(i as int + 1));
            lemma_concat_all_push(parts.deep_view().take(i as int), parts.deep_view()[i as int]);
        }
        r.append(parts[i].as_str());
        proof {
            assert(parts.deep_view()[i as int] == parts@[i as int]@);
        }
    }
    proof {
        assert(parts.deep_view().take(parts@.len() as int) =~= parts.deep_view());
    }
    r
}

/// The strings of `parts` joined by a comma and a space.
pub fn join_comma(parts: &Vec<String>) -> (r: String)
    ensures
        r@ == join_with(parts.deep_view(), ", "@),
{
    let mut r = String::new();
    for i in 0..parts.len()
        invariant
            r@ == join_with(parts.deep_view().take(i as int), ", "@),
            parts.deep_view().len() == parts@.len(),
    {
        proof {
            assert(parts.deep_view().take(i as int).push(parts.deep_view()[i as int])
                =~= parts.deep_view().take(i as int + 1));
            if i > 0 {
                lemma_join_with_push(
                    parts.deep_view().take(i as int),
                    parts.deep_view()[i as int],
                    ", "@,
                );
            }
        }
        if i > 0 {
            r.append(", ");
        }
        r.append(parts[i].as_str());
        proof {
            assert(parts.deep_view()[i as int] == parts@[i as int]@);
            if i == 0 {
                assert(parts.deep_view().take(1) =~= seq![parts.deep_view()[0]]);
            }
        }
    }
    proof {
        assert(parts.deep_view().take(parts@.len() as int) =~= parts.deep_view());
    }
    r
}

} // verus!
