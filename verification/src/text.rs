//! Characters and strings as the messages and the settings need them: length
//! in 16-bit code units, lexicographic order and sorting, decimal numerals,
//! trimming of white space and splitting at a separator.

use vstd::prelude::*;
use vstd::relations::*;
use vstd::seq_lib::*;
use vstd::std_specs::iter::IteratorSpec;
use vstd::string::*;

verus! {

/// Number of 16-bit code units that one character occupies: two outside the
/// basic multilingual plane, one inside it.
pub open spec fn char_units(c: char) -> nat {
    if c >= '\u{10000}' {
        2
    } else {
        1
    }
}

/// Length of a text in 16-bit code units.
pub open spec fn units(s: Seq<char>) -> nat
    decreases s.len(),
{
    if s.len() == 0 {
        0
    } else {
        units(s.drop_last()) + char_units(s.last())
    }
}

/// The length in code units of a concatenation is the sum of the lengths.
pub proof fn lemma_units_concat(a: Seq<char>, b: Seq<char>)
    ensures
        units(a + b) == units(a) + units(b),
    decreases b.len(),
{
    if b.len() == 0 {
        assert(a + b =~= a);
    } else {
        assert((a + b).drop_last() =~= a + b.drop_last());
        lemma_units_concat(a, b.drop_last());
    }
}

/// A text has at least one code unit per character and at most two.
pub proof fn lemma_units_bounds(s: Seq<char>)
    ensures
        s.len() <= units(s) <= 2 * s.len(),
    decreases s.len(),
{
    if s.len() > 0 {
        lemma_units_bounds(s.drop_last());
    }
}

/// The characters of a string, in order.
pub fn chars_of(s: &str) -> (v: Vec<char>)
    ensures
        v@ == s@,
{
    let mut v: Vec<char> = Vec::new();
    for c in it: s.chars()
        invariant
            it.seq() == s@,
            v@ == s@.take(it.index() as int),
    {
        v.push(c);
    }
    v
}

/// `String::push` of std: appends one character to the string and leaves
/// what was there before in place.
#[verifier::external_body]
pub(crate) fn push_char(s: &mut String, c: char)
    ensures
        final(s)@ == old(s)@.push(c),
{
    s.push(c);
}

/// Length of a string in 16-bit code units, where it can be told in an
/// `i64`.
pub fn unit_len(s: &str) -> (r: Option<i64>)
    ensures
        r is Some <==> units(s@) <= i64::MAX,
        r is Some ==> r->0 == units(s@),
{
    let mut n: i64 = 0;
    for c in it: s.chars()
        invariant
            it.seq() == s@,
            n == units(s@.take(it.index() as int)),
    {
        let ghost i = it.index() as int;
        let w: i64 = if c >= '\u{10000}' { 2 } else { 1 };
        proof {
            assert(s@.take(i + 1).drop_last() =~= s@.take(i));
            assert(s@ =~= s@.take(i + 1) + s@.skip(i + 1));
            lemma_units_concat(s@.take(i + 1), s@.skip(i + 1));
        }
        if n > i64::MAX - w {
            return None;
        }
        n = n + w;
    }
    assert(s@.take(s@.len() as int) =~= s@);
    Some(n)
}

/// Whether two texts hold the same characters at every position below `i`.
pub open spec fn agree_below(a: Seq<char>, b: Seq<char>, i: int) -> bool {
    forall|k: int| 0 <= k < i ==> a[k] == b[k]
}

/// Whether `i` is the first position at which the two texts differ, and `a`
/// holds the smaller character there.
pub open spec fn precedes_at(a: Seq<char>, b: Seq<char>, i: int) -> bool {
    &&& 0 <= i < a.len()
    &&& i < b.len()
    &&& agree_below(a, b, i)
    &&& a[i] < b[i]
}

/// Lexicographic order by code point: `a` comes no later than `b` when it is
/// a prefix of `b`, or holds the smaller character where they first differ.
pub open spec fn lex_le(a: Seq<char>, b: Seq<char>) -> bool {
    ||| a.len() <= b.len() && agree_below(a, b, a.len() as int)
    ||| exists|i: int| precedes_at(a, b, i)
}

/// The lexicographic order as a relation.
pub open spec fn lex_order() -> spec_fn(Seq<char>, Seq<char>) -> bool {
    |a: Seq<char>, b: Seq<char>| lex_le(a, b)
}

/// Two texts that agree below `i` are ordered one way or the other.
proof fn lemma_lex_connected_from(a: Seq<char>, b: Seq<char>, i: int)
    requires
        0 <= i <= a.len(),
        i <= b.len(),
        agree_below(a, b, i),
    ensures
        lex_le(a, b) || lex_le(b, a),
    decreases a.len() - i,
{
    if i == a.len() {
    } else if i == b.len() {
        assert(agree_below(b, a, b.len() as int));
    } else if a[i] == b[i] {
        lemma_lex_connected_from(a, b, i + 1);
    } else if a[i] < b[i] {
        assert(precedes_at(a, b, i));
    } else {
        assert(agree_below(b, a, i));
        assert(precedes_at(b, a, i));
    }
}

/// Two texts each of which comes no later than the other are the same text.
pub proof fn lemma_lex_antisymmetric(a: Seq<char>, b: Seq<char>)
    requires
        lex_le(a, b),
        lex_le(b, a),
    ensures
        a == b,
{
    if exists|i: int| precedes_at(a, b, i) {
        let i = choose|i: int| precedes_at(a, b, i);
        if exists|j: int| precedes_at(b, a, j) {
            let j = choose|j: int| precedes_at(b, a, j);
            assert(false);
        }
        assert(false);
    } else if exists|j: int| precedes_at(b, a, j) {
        let j = choose|j: int| precedes_at(b, a, j);
        assert(false);
    }
    assert(a =~= b);
}

/// The lexicographic order is transitive.
pub proof fn lemma_lex_transitive(a: Seq<char>, b: Seq<char>, c: Seq<char>)
    requires
        lex_le(a, b),
        lex_le(b, c),
    ensures
        lex_le(a, c),
{
    if exists|i: int| precedes_at(a, b, i) {
        let i = choose|i: int| precedes_at(a, b, i);
        if exists|j: int| precedes_at(b, c, j) {
            let j = choose|j: int| precedes_at(b, c, j);
            if i <= j {
                assert(precedes_at(a, c, i));
            } else {
                assert(precedes_at(a, c, j));
            }
        } else {
            assert(precedes_at(a, c, i));
        }
    } else if exists|j: int| precedes_at(b, c, j) {
        let j = choose|j: int| precedes_at(b, c, j);
        if j < a.len() {
            assert(precedes_at(a, c, j));
        }
    }
}

/// The lexicographic order is a total order on texts.
pub proof fn lemma_lex_total_ordering()
    ensures
        total_ordering(lex_order()),
{
    let r = lex_order();
    assert forall|x: Seq<char>, y: Seq<char>| #[trigger] r(x, y) && #[trigger] r(y, x) implies x
        == y by {
        lemma_lex_antisymmetric(x, y);
    }
    assert forall|x: Seq<char>, y: Seq<char>, z: Seq<char>| #[trigger] r(x, y) && #[trigger] r(
        y,
        z,
    ) implies r(x, z) by {
        lemma_lex_transitive(x, y, z);
    }
    assert forall|x: Seq<char>, y: Seq<char>| #[trigger] r(x, y) || #[trigger] r(y, x) by {
        lemma_lex_connected_from(x, y, 0);
    }
}

/// Whether `a` comes no later than `b` in lexicographic order.
pub fn str_le(a: &str, b: &str) -> (r: bool)
    ensures
        r == lex_le(a@, b@),
{
    broadcast use group_string_axioms;

    let mut x = a.chars();
    let mut y = b.chars();
    let ghost mut i: int = 0;
    loop
        invariant
            0 <= i <= a@.len(),
            i <= b@.len(),
            agree_below(a@, b@, i),
            x.remaining() == a@.skip(i),
            y.remaining() == b@.skip(i),
        decreases a@.len() - i,
    {
        match x.next() {
            None => {
                return true;
            },
            Some(c) => {
                match y.next() {
                    None => {
                        proof {
                            assert(agree_below(b@, a@, i));
                            if lex_le(a@, b@) {
                                let j = choose|j: int| precedes_at(a@, b@, j);
                                assert(false);
                            }
                        }
                        return false;
                    },
                    Some(d) => {
                        assert(c == a@[i]);
                        assert(d == b@[i]);
                        if c != d {
                            let lt = c < d;
                            proof {
                                if lt {
                                    assert(precedes_at(a@, b@, i));
                                } else {
                                    assert(agree_below(b@, a@, i));
                                    assert(precedes_at(b@, a@, i));
                                    if lex_le(a@, b@) {
                                        lemma_lex_antisymmetric(a@, b@);
                                    }
                                }
                            }
                            return lt;
                        }
                        proof {
                            assert(a@.skip(i).drop_first() =~= a@.skip(i + 1));
                            assert(b@.skip(i).drop_first() =~= b@.skip(i + 1));
                            i = i + 1;
                        }
                    },
                }
            },
        }
    }
}

/// The texts that a list of strings holds, in order.
pub open spec fn texts(v: Seq<String>) -> Seq<Seq<char>> {
    v.map_values(|s: String| s@)
}

/// Index of the first string of a sorted list that comes later than `x`, or
/// the list's length where none does.
fn upper_bound(v: &Vec<String>, x: &str) -> (j: usize)
    requires
        sorted_by(texts(v@), lex_order()),
    ensures
        j <= v.len(),
        forall|k: int| 0 <= k < j ==> lex_le(#[trigger] v@[k]@, x@),
        forall|k: int| j <= k < v.len() ==> lex_le(x@, #[trigger] v@[k]@),
{
    let mut j: usize = 0;
    while j < v.len() && str_le(v[j].as_str(), x)
        invariant
            j <= v.len(),
            forall|k: int| 0 <= k < j ==> lex_le(#[trigger] v@[k]@, x@),
        decreases v.len() - j,
    {
        j += 1;
    }
    proof {
        if j < v.len() {
            lemma_lex_connected_from(v@[j as int]@, x@, 0);
            assert forall|k: int| j <= k < v.len() implies lex_le(x@, #[trigger] v@[k]@) by {
                if j < k {
                    assert(lex_order()(texts(v@)[j as int], texts(v@)[k]));
                    lemma_lex_transitive(x@, v@[j as int]@, v@[k]@);
                }
            }
        }
    }
    j
}

/// The strings of `v` in lexicographic order by code point.
pub fn sort_texts(v: Vec<String>) -> (r: Vec<String>)
    ensures
        texts(r@) == texts(v@).sort_by(lex_order()),
{
    broadcast use group_to_multiset_ensures;

    let ghost all = texts(v@);
    let mut rest = v;
    let mut r: Vec<String> = Vec::new();
    assert(texts(r@).to_multiset().add(texts(rest@).to_multiset()) =~= all.to_multiset());
    while rest.len() > 0
        invariant
            sorted_by(texts(r@), lex_order()),
            texts(r@).to_multiset().add(texts(rest@).to_multiset()) == all.to_multiset(),
        decreases rest.len(),
    {
        let ghost before = texts(rest@);
        let ghost sorted = texts(r@);
        let x = rest.pop().unwrap();
        let j = upper_bound(&r, x.as_str());
        r.insert(j, x);
        proof {
            assert(texts(rest@) =~= before.drop_last());
            assert(before =~= texts(rest@).push(x@));
            assert(texts(r@) =~= sorted.insert(j as int, x@));
            to_multiset_insert(sorted, j as int, x@);
            to_multiset_build(texts(rest@), x@);
            assert(before.to_multiset() =~= texts(rest@).to_multiset().insert(x@));
            assert(texts(r@).to_multiset() =~= sorted.to_multiset().insert(x@));
            assert(texts(r@).to_multiset().add(texts(rest@).to_multiset()) =~= all.to_multiset());
            assert forall|a: int, b: int| 0 <= a < b < texts(r@).len() implies lex_order()(
                #[trigger] texts(r@)[a],
                #[trigger] texts(r@)[b],
            ) by {
                if b < j {
                    assert(lex_order()(sorted[a], sorted[b]));
                } else if b == j {
                    assert(sorted[a] == r@[a]@);
                } else if a < j {
                    assert(lex_order()(sorted[a], sorted[b - 1]));
                } else if a == j {
                    assert(sorted[b - 1] == r@[b]@);
                } else {
                    assert(lex_order()(sorted[a - 1], sorted[b - 1]));
                }
            }
        }
    }
    proof {
        assert(texts(rest@) =~= Seq::<Seq<char>>::empty());
        assert(texts(r@).to_multiset() =~= all.to_multiset());
        lemma_lex_total_ordering();
        all.lemma_sort_by_ensures(lex_order());
        lemma_sorted_unique(texts(r@), all.sort_by(lex_order()), lex_order());
    }
    r
}

/// The decimal digit that stands for `d`, which is below ten.
pub open spec fn digit(d: nat) -> char {
    (d + 48) as char
}

/// The decimal digits of a natural number, most significant first, without
/// leading zeros.
pub open spec fn digits(n: nat) -> Seq<char>
    decreases n,
{
    if n < 10 {
        seq![digit(n)]
    } else {
        digits(n / 10).push(digit(n % 10))
    }
}

/// The decimal numeral of an integer: a minus sign where it is negative,
/// then the digits of its magnitude.
pub open spec fn decimal(n: int) -> Seq<char> {
    if n < 0 {
        seq!['-'] + digits((-n) as nat)
    } else {
        digits(n as nat)
    }
}

/// Appends the decimal digits of `n` to `s`.
fn push_digits(s: &mut String, n: u64)
    ensures
        final(s)@ == old(s)@ + digits(n as nat),
    decreases n,
{
    if n >= 10 {
        push_digits(s, n / 10);
    }
    let d: u8 = (n % 10) as u8;
    push_char(s, (d + 48) as char);
    assert(final(s)@ =~= old(s)@ + digits(n as nat));
}

/// The decimal numeral of `n`.
pub fn decimal_string(n: i32) -> (s: String)
    ensures
        s@ == decimal(n as int),
{
    let mut s = String::new();
    let wide: i64 = n as i64;
    if wide < 0 {
        push_char(&mut s, '-');
        push_digits(&mut s, (-wide) as u64);
        assert(s@ =~= decimal(n as int));
    } else {
        push_digits(&mut s, wide as u64);
        assert(s@ =~= decimal(n as int));
    }
    s
}

/// Whether two strings hold the same text.
pub fn same_text(a: &str, b: &str) -> (r: bool)
    ensures
        r == (a@ == b@),
{
    let r = str_le(a, b) && str_le(b, a);
    proof {
        if r {
            lemma_lex_antisymmetric(a@, b@);
        }
    }
    r
}

/// Whether a character is white space: a character with the property
/// `White_Space` of Unicode.
pub open spec fn is_space(c: char) -> bool {
    ||| '\u{9}' <= c <= '\u{D}'
    ||| c == ' '
    ||| c == '\u{85}'
    ||| c == '\u{A0}'
    ||| c == '\u{1680}'
    ||| '\u{2000}' <= c <= '\u{200A}'
    ||| c == '\u{2028}'
    ||| c == '\u{2029}'
    ||| c == '\u{202F}'
    ||| c == '\u{205F}'
    ||| c == '\u{3000}'
}

/// Whether a character is white space.
pub fn is_whitespace(c: char) -> (r: bool)
    ensures
        r == is_space(c),
{
    ('\u{9}' <= c && c <= '\u{D}') || c == ' ' || c == '\u{85}' || c == '\u{A0}' || c
        == '\u{1680}' || ('\u{2000}' <= c && c <= '\u{200A}') || c == '\u{2028}' || c
        == '\u{2029}' || c == '\u{202F}' || c == '\u{205F}' || c == '\u{3000}'
}

/// A text without the white space at its start.
pub open spec fn trimmed_start(s: Seq<char>) -> Seq<char>
    decreases s.len(),
{
    if s.len() > 0 && is_space(s.first()) {
        trimmed_start(s.drop_first())
    } else {
        s
    }
}

/// A text without the white space at its end.
pub open spec fn trimmed_end(s: Seq<char>) -> Seq<char>
    decreases s.len(),
{
    if s.len() > 0 && is_space(s.last()) {
        trimmed_end(s.drop_last())
    } else {
        s
    }
}

/// A text without the white space at its start and at its end.
pub open spec fn trimmed(s: Seq<char>) -> Seq<char> {
    trimmed_end(trimmed_start(s))
}

/// What `trimmed_start` removes is white space, and what it leaves does not
/// start with any. Returns the number of characters removed.
proof fn lemma_trimmed_start(s: Seq<char>) -> (i: int)
    ensures
        0 <= i <= s.len(),
        trimmed_start(s) == s.skip(i),
        forall|k: int| 0 <= k < i ==> is_space(s[k]),
        i < s.len() ==> !is_space(s[i]),
    decreases s.len(),
{
    if s.len() > 0 && is_space(s.first()) {
        let j = lemma_trimmed_start(s.drop_first());
        assert(s.drop_first().skip(j) =~= s.skip(j + 1));
        assert forall|k: int| 0 <= k < j + 1 implies is_space(s[k]) by {
            if k > 0 {
                assert(s[k] == s.drop_first()[k - 1]);
            }
        }
        j + 1
    } else {
        assert(s.skip(0) =~= s);
        0
    }
}

/// What `trimmed_end` removes is white space, and what it leaves does not
/// end with any. Returns the number of characters left.
proof fn lemma_trimmed_end(s: Seq<char>) -> (j: int)
    ensures
        0 <= j <= s.len(),
        trimmed_end(s) == s.take(j),
        forall|k: int| j <= k < s.len() ==> is_space(s[k]),
        0 < j ==> !is_space(s[j - 1]),
    decreases s.len(),
{
    if s.len() > 0 && is_space(s.last()) {
        let j = lemma_trimmed_end(s.drop_last());
        assert(s.drop_last().take(j) =~= s.take(j));
        assert forall|k: int| j <= k < s.len() implies is_space(s[k]) by {
            if k < s.len() - 1 {
                assert(s[k] == s.drop_last()[k]);
            }
        }
        if j > 0 {
            assert(s[j - 1] == s.drop_last()[j - 1]);
        }
        j
    } else {
        assert(s.take(s.len() as int) =~= s);
        s.len() as int
    }
}

/// Trimming leaves one stretch of the text, from the first character that
/// is not white space to the last: everything before and after it is white
/// space. Returns where the stretch starts and where it ends.
pub proof fn lemma_trimmed_is_core(s: Seq<char>) -> (r: (int, int))
    ensures
        0 <= r.0 <= r.1 <= s.len(),
        trimmed(s) == s.subrange(r.0, r.1),
        forall|k: int| 0 <= k < r.0 ==> is_space(s[k]),
        forall|k: int| r.1 <= k < s.len() ==> is_space(s[k]),
        r.0 < r.1 ==> !is_space(s[r.0]) && !is_space(s[r.1 - 1]),
{
    let i = lemma_trimmed_start(s);
    let j = lemma_trimmed_end(s.skip(i));
    assert(s.skip(i).take(j) =~= s.subrange(i, i + j));
    assert forall|k: int| i + j <= k < s.len() implies is_space(s[k]) by {
        assert(s[k] == s.skip(i)[k - i]);
    }
    if j > 0 {
        assert(s.skip(i)[j - 1] == s[i + j - 1]);
    }
    (i, i + j)
}

/// The string without the white space at its start and at its end.
pub fn trim(s: &str) -> (r: String)
    ensures
        r@ == trimmed(s@),
{
    let v = chars_of(s);
    let mut i: usize = 0;
    assert(v@.skip(0) =~= v@);
    while i < v.len() && is_whitespace(v[i])
        invariant
            i <= v.len(),
            trimmed_start(v@) == trimmed_start(v@.skip(i as int)),
        decreases v.len() - i,
    {
        assert(v@.skip(i as int).drop_first() =~= v@.skip(i + 1));
        i += 1;
    }
    let mut j: usize = v.len();
    assert(v@.subrange(i as int, j as int) =~= v@.skip(i as int));
    while j > i && is_whitespace(v[j - 1])
        invariant
            i <= j <= v.len(),
            trimmed(v@) == trimmed_end(v@.subrange(i as int, j as int)),
        decreases j,
    {
        assert(v@.subrange(i as int, j as int).drop_last() =~= v@.subrange(i as int, j - 1));
        j -= 1;
    }
    let mut r = String::new();
    let mut k: usize = i;
    assert(v@.subrange(i as int, i as int) =~= Seq::<char>::empty());
    while k < j
        invariant
            i <= k <= j <= v.len(),
            r@ == v@.subrange(i as int, k as int),
        decreases j - k,
    {
        push_char(&mut r, v[k]);
        k += 1;
        assert(r@ =~= v@.subrange(i as int, k as int));
    }
    r
}

/// The pieces into which the separator cuts a text: one more than the text
/// holds separators, in order, each without a separator.
pub open spec fn split(s: Seq<char>, sep: char) -> Seq<Seq<char>>
    decreases s.len(),
{
    if s.len() == 0 {
        seq![seq![]]
    } else {
        let before = split(s.drop_last(), sep);
        if s.last() == sep {
            before.push(seq![])
        } else {
            before.drop_last().push(before.last().push(s.last()))
        }
    }
}

/// The pieces of a list one after another, with the separator between each
/// two neighbours.
pub open spec fn joined(pieces: Seq<Seq<char>>, sep: char) -> Seq<char>
    decreases pieces.len(),
{
    if pieces.len() == 0 {
        seq![]
    } else if pieces.len() == 1 {
        pieces[0]
    } else {
        joined(pieces.drop_last(), sep) + seq![sep] + pieces.last()
    }
}

/// A text is cut into at least one piece, no piece holds the separator, and
/// the pieces joined by the separator are the text.
pub proof fn lemma_split_joins(s: Seq<char>, sep: char)
    ensures
        split(s, sep).len() >= 1,
        forall|i: int| 0 <= i < split(s, sep).len() ==> !(#[trigger] split(s, sep)[i]).contains(sep),
        joined(split(s, sep), sep) == s,
    decreases s.len(),
{
    let pieces = split(s, sep);
    if s.len() == 0 {
        assert(joined(pieces, sep) =~= s);
    } else {
        let before = split(s.drop_last(), sep);
        lemma_split_joins(s.drop_last(), sep);
        assert(s =~= s.drop_last().push(s.last()));
        if s.last() == sep {
            assert(pieces.drop_last() =~= before);
            assert(joined(pieces, sep) =~= s);
        } else {
            let grown = before.last().push(s.last());
            assert forall|i: int| 0 <= i < pieces.len() implies !(#[trigger] pieces[i]).contains(
                sep,
            ) by {
                if i == pieces.len() - 1 {
                    if grown.contains(sep) {
                        let k = choose|k: int| 0 <= k < grown.len() && grown[k] == sep;
                        assert(before.last()[k] == sep);
                    }
                } else {
                    assert(pieces[i] == before[i]);
                }
            }
            if before.len() == 1 {
                assert(joined(pieces, sep) =~= s);
            } else {
                assert(pieces.drop_last() =~= before.drop_last());
                assert(joined(pieces, sep) =~= joined(before, sep).push(s.last()));
            }
        }
    }
}

/// The pieces into which the separator cuts a string.
pub fn split_str(s: &str, sep: char) -> (pieces: Vec<String>)
    ensures
        texts(pieces@) == split(s@, sep),
{
    let mut pieces: Vec<String> = Vec::new();
    let mut piece = String::new();
    assert(texts(pieces@).push(piece@) =~= split(s@.take(0), sep));
    for c in it: s.chars()
        invariant
            it.seq() == s@,
            texts(pieces@).push(piece@) == split(s@.take(it.index() as int), sep),
    {
        let ghost i = it.index() as int;
        let ghost before = texts(pieces@);
        let ghost open = piece@;
        assert(s@.take(i + 1).drop_last() =~= s@.take(i));
        if c == sep {
            pieces.push(piece);
            piece = String::new();
            assert(texts(pieces@) =~= before.push(open));
        } else {
            push_char(&mut piece, c);
            assert(before.push(open).drop_last() =~= before);
        }
    }
    assert(s@.take(s@.len() as int) =~= s@);
    let ghost before = texts(pieces@);
    pieces.push(piece);
    assert(texts(pieces@) =~= before.push(piece@));
    pieces
}

} // verus!
