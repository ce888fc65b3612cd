//! Operations on text that the rest of the crate reads its inputs with.

use vstd::hash_set::StringHashSet;
use vstd::prelude::*;
use vstd::utf8::*;

verus! {

/// Unicode's `White_Space` property.
pub open spec fn is_white_space(c: char) -> bool {
    ||| '\u{9}' <= c <= '\u{d}'
    ||| c == ' '
    ||| c == '\u{85}'
    ||| c == '\u{a0}'
    ||| c == '\u{1680}'
    ||| '\u{2000}' <= c <= '\u{200a}'
    ||| c == '\u{2028}'
    ||| c == '\u{2029}'
    ||| c == '\u{202f}'
    ||| c == '\u{205f}'
    ||| c == '\u{3000}'
}

/// `char::is_whitespace` of the standard library: whether a character has
/// Unicode's `White_Space` property.
pub assume_specification[ char::is_whitespace ](c: char) -> (b: bool)
    ensures
        b == is_white_space(c),
;

/// Drops leading white space.
pub open spec fn trim_start(s: Seq<char>) -> Seq<char>
    decreases s.len(),
{
    if s.len() > 0 && is_white_space(s.first()) {
        trim_start(s.drop_first())
    } else {
        s
    }
}

/// Drops trailing white space.
pub open spec fn trim_end(s: Seq<char>) -> Seq<char>
    decreases s.len(),
{
    if s.len() > 0 && is_white_space(s.last()) {
        trim_end(s.drop_last())
    } else {
        s
    }
}

/// Drops white space at both ends.
pub open spec fn trim(s: Seq<char>) -> Seq<char> {
    trim_end(trim_start(s))
}

/// The text from `from` up to `to` is one of the items of `s`, a list whose
/// items are separated by `sep`.
pub open spec fn is_item(s: Seq<char>, sep: char, from: int, to: int) -> bool {
    &&& 0 <= from <= to <= s.len()
    &&& from == 0 || s[from - 1] == sep
    &&& to == s.len() || s[to] == sep
    &&& forall|k: int| from <= k < to ==> s[k] != sep
}

/// `x` is what trimming leaves of one of the items of `s`, and is not empty.
pub open spec fn lists(s: Seq<char>, sep: char, x: Seq<char>) -> bool {
    &&& x.len() > 0
    &&& exists|from: int, to: int|
        #[trigger] is_item(s, sep, from, to) && x == trim(s.subrange(from, to))
}

/// As `lists`, among the items that end before `bound`.
spec fn lists_before(s: Seq<char>, sep: char, bound: int, x: Seq<char>) -> bool {
    &&& x.len() > 0
    &&& exists|from: int, to: int|
        #[trigger] is_item(s, sep, from, to) && to < bound && x == trim(s.subrange(from, to))
}

/// Where the trimmed part of the characters from `from` up to `to` begins and
/// ends.
fn trim_range(chars: &Vec<char>, from: usize, to: usize) -> (res: (usize, usize))
    requires
        from <= to <= chars@.len(),
    ensures
        from <= res.0 <= res.1 <= to,
        chars@.subrange(res.0 as int, res.1 as int) == trim(
            chars@.subrange(from as int, to as int),
        ),
{
    let mut a: usize = from;
    while a < to && chars[a].is_whitespace()
        invariant
            from <= a <= to <= chars@.len(),
            trim_start(chars@.subrange(a as int, to as int)) == trim_start(
                chars@.subrange(from as int, to as int),
            ),
        decreases to - a,
    {
        assert(chars@.subrange(a as int, to as int).drop_first() =~= chars@.subrange(
            a + 1,
            to as int,
        ));
        a = a + 1;
    }
    assert(chars@.subrange(a as int, to as int) == trim_start(
        chars@.subrange(from as int, to as int),
    ));
    let mut b: usize = to;
    while b > a && chars[b - 1].is_whitespace()
        invariant
            a <= b <= to <= chars@.len(),
            trim_end(chars@.subrange(a as int, b as int)) == trim_end(
                chars@.subrange(a as int, to as int),
            ),
        decreases b,
    {
        assert(chars@.subrange(a as int, b as int).drop_last() =~= chars@.subrange(
            a as int,
            b - 1,
        ));
        b = b - 1;
    }
    (a, b)
}

/// Adds the trimmed characters from `from` up to `to`, if any are left.
fn insert_item(res: &mut StringHashSet, s: &str, chars: &Vec<char>, from: usize, to: usize)
    requires
        chars@ == s@,
        from <= to <= chars@.len(),
    ensures
        final(res)@ == ({
            let x = trim(s@.subrange(from as int, to as int));
            if x.len() > 0 {
                old(res)@.insert(x)
            } else {
                old(res)@
            }
        }),
{
    let (a, b) = trim_range(chars, from, to);
    if a < b {
        res.insert(s.substring_char(a, b).to_owned());
    }
}

/// The item that starts at `start` and ends at `i` comes next after those that
/// end before `start`.
proof fn lemma_next_item(s: Seq<char>, sep: char, start: int, i: int, x: Seq<char>)
    requires
        is_item(s, sep, start, i),
    ensures
        lists_before(s, sep, i + 1, x) <==> lists_before(s, sep, start, x) || (x.len() > 0 && x
            == trim(s.subrange(start, i))),
{
    if lists_before(s, sep, i + 1, x) {
        let (from, to) = choose|from: int, to: int|
            #[trigger] is_item(s, sep, from, to) && to < i + 1 && x == trim(s.subrange(from, to));
        if to >= start {
            assert(to == i);
            assert(from == start);
        }
    }
}

/// The items of a list whose items are separated by `sep`, trimmed, without the
/// empty ones.
pub fn list_items(s: &str, sep: char) -> (res: StringHashSet)
    ensures
        forall|x: Seq<char>| #[trigger] res@.contains(x) <==> lists(s@, sep, x),
{
    let chars = to_chars(s);
    let mut res = StringHashSet::new();
    let mut start: usize = 0;
    let mut i: usize = 0;
    let n: usize = chars.len();
    while i < n
        invariant
            chars@ == s@,
            n == chars@.len(),
            start <= i <= n,
            start == 0 || s@[start - 1] == sep,
            forall|k: int| start <= k < i ==> s@[k] != sep,
            forall|x: Seq<char>| #[trigger]
                res@.contains(x) <==> lists_before(s@, sep, start as int, x),
        decreases n - i,
    {
        if chars[i] == sep {
            insert_item(&mut res, s, &chars, start, i);
            proof {
                assert(is_item(s@, sep, start as int, i as int));
                assert forall|x: Seq<char>| #[trigger]
                    res@.contains(x) <==> lists_before(s@, sep, i + 1, x) by {
                    lemma_next_item(s@, sep, start as int, i as int, x);
                }
            }
            start = i + 1;
        }
        i = i + 1;
    }
    insert_item(&mut res, s, &chars, start, n);
    proof {
        assert(is_item(s@, sep, start as int, n as int));
        assert forall|x: Seq<char>| #[trigger] res@.contains(x) <==> lists(s@, sep, x) by {
            lemma_next_item(s@, sep, start as int, n as int, x);
            if lists(s@, sep, x) {
                let (from, to) = choose|from: int, to: int|
                    #[trigger] is_item(s@, sep, from, to) && x == trim(s@.subrange(from, to));
                assert(to < n + 1);
            }
        }
    }
    res
}

/// Compares two texts.
pub fn text_eq(a: &str, b: &str) -> (res: bool)
    ensures
        res == (a@ == b@),
{
    let x = a.as_bytes();
    let y = b.as_bytes();
    proof {
        encode_utf8_decode_utf8(a@);
        encode_utf8_decode_utf8(b@);
    }
    if x.len() != y.len() {
        return false;
    }
    let mut i: usize = 0;
    while i < x.len()
        invariant
            i <= x@.len(),
            x@.len() == y@.len(),
            x@ == encode_utf8(a@),
            y@ == encode_utf8(b@),
            forall|k: int| 0 <= k < i ==> x@[k] == y@[k],
        decreases x@.len() - i,
    {
        if x[i] != y[i] {
            return false;
        }
        i = i + 1;
    }
    assert(x@ =~= y@);
    true
}

/// The characters of a text.
pub fn to_chars(s: &str) -> (res: Vec<char>)
    ensures
        res@ == s@,
{
    let mut res: Vec<char> = Vec::new();
    for c in it: s.chars()
        invariant
            it.seq() == s@,
            res@ == s@.take(it.index() as int),
    {
        res.push(c);
    }
    res
}

/// Whether `s` begins with `prefix`.
pub fn has_prefix(s: &str, prefix: &str) -> (res: bool)
    ensures
        res == prefix@.is_prefix_of(s@),
{
    let a = to_chars(s);
    let b = to_chars(prefix);
    if b.len() > a.len() {
        return false;
    }
    let mut i: usize = 0;
    while i < b.len()
        invariant
            i <= b@.len() <= a@.len(),
            a@ == s@,
            b@ == prefix@,
            forall|k: int| 0 <= k < i ==> a@[k] == b@[k],
        decreases b@.len() - i,
    {
        if a[i] != b[i] {
            return false;
        }
        i = i + 1;
    }
    assert(b@ =~= a@.take(b@.len() as int));
    true
}

/// Trimming takes away white space at both ends, and all of it.
pub proof fn law_trim_takes_all_white_space_at_the_ends(s: Seq<char>)
    ensures
        exists|from: int, to: int|
            #![trigger s.subrange(from, to)]
            {
                &&& 0 <= from <= to <= s.len()
                &&& trim(s) == s.subrange(from, to)
                &&& forall|k: int| 0 <= k < from ==> is_white_space(#[trigger] s[k])
                &&& forall|k: int| to <= k < s.len() ==> is_white_space(#[trigger] s[k])
            },
        trim(s).len() > 0 ==> !is_white_space(trim(s).first()) && !is_white_space(trim(s).last()),
{
    let from = lemma_trim_start(s);
    let t = trim_start(s);
    let to = lemma_trim_end(t);
    assert(t == s.subrange(from, s.len() as int));
    assert(trim(s) =~= s.subrange(from, from + to));
    assert forall|k: int| from + to <= k < s.len() implies is_white_space(#[trigger] s[k]) by {
        assert(t[k - from] == s[k]);
    }
    if trim(s).len() > 0 {
        assert(trim(s).first() == t.first());
    }
}

proof fn lemma_trim_start(s: Seq<char>) -> (from: int)
    ensures
        0 <= from <= s.len(),
        trim_start(s) == s.subrange(from, s.len() as int),
        forall|k: int| 0 <= k < from ==> is_white_space(#[trigger] s[k]),
        from < s.len() ==> !is_white_space(s[from]),
    decreases s.len(),
{
    if s.len() > 0 && is_white_space(s.first()) {
        let rest = s.drop_first();
        let from = lemma_trim_start(rest);
        assert(rest.subrange(from, rest.len() as int) =~= s.subrange(from + 1, s.len() as int));
        assert forall|k: int| 0 <= k < from + 1 implies is_white_space(#[trigger] s[k]) by {
            if k > 0 {
                assert(rest[k - 1] == s[k]);
            }
        }
        from + 1
    } else {
        assert(s.subrange(0, s.len() as int) =~= s);
        0
    }
}

proof fn lemma_trim_end(s: Seq<char>) -> (to: int)
    ensures
        0 <= to <= s.len(),
        trim_end(s) == s.subrange(0, to),
        forall|k: int| to <= k < s.len() ==> is_white_space(#[trigger] s[k]),
        to > 0 ==> !is_white_space(s[to - 1]),
    decreases s.len(),
{
    if s.len() > 0 && is_white_space(s.last()) {
        let rest = s.drop_last();
        let to = lemma_trim_end(rest);
        assert(rest.subrange(0, to) =~= s.subrange(0, to));
        assert forall|k: int| to <= k < s.len() implies is_white_space(#[trigger] s[k]) by {
            if k < rest.len() {
                assert(rest[k] == s[k]);
            }
        }
        to
    } else {
        assert(s.subrange(0, s.len() as int) =~= s);
        s.len() as int
    }
}

/// A list without a separator lists what trimming leaves of it, and nothing else.
pub proof fn law_one_item_is_listed(s: Seq<char>, sep: char, x: Seq<char>)
    requires
        !s.contains(sep),
    ensures
        lists(s, sep, x) <==> x.len() > 0 && x == trim(s),
{
    assert(s.subrange(0, s.len() as int) =~= s);
    assert(is_item(s, sep, 0, s.len() as int));
    if lists(s, sep, x) {
        let (from, to) = choose|from: int, to: int|
            #[trigger] is_item(s, sep, from, to) && x == trim(s.subrange(from, to));
        assert(from == 0 || s[from - 1] == sep);
        assert(to == s.len() || s[to] == sep);
    }
}

/// The part before a separator has its items in the whole list.
proof fn lemma_item_before(a: Seq<char>, b: Seq<char>, sep: char, from: int, to: int)
    requires
        to <= a.len(),
    ensures
        is_item(a + seq![sep] + b, sep, from, to) <==> is_item(a, sep, from, to),
        0 <= from <= to ==> (a + seq![sep] + b).subrange(from, to) == a.subrange(from, to),
{
    let s = a + seq![sep] + b;
    assert(s[a.len() as int] == sep);
    if 0 <= from <= to {
        assert(s.subrange(from, to) =~= a.subrange(from, to));
        assert(forall|k: int| 0 <= k < a.len() ==> #[trigger] s[k] == a[k]);
        assert(from > 0 ==> s[from - 1] == a[from - 1]);
        assert(to < a.len() ==> s[to] == a[to]);
        if is_item(s, sep, from, to) {
            assert forall|k: int| from <= k < to implies a[k] != sep by {
                assert(s[k] == a[k]);
            }
        }
    }
}

/// The part after a separator has its items in the whole list, further on.
proof fn lemma_item_after(a: Seq<char>, b: Seq<char>, sep: char, from: int, to: int)
    requires
        from >= 0,
    ensures
        is_item(a + seq![sep] + b, sep, a.len() + 1 + from, a.len() + 1 + to) <==> is_item(
            b,
            sep,
            from,
            to,
        ),
        from <= to <= b.len() ==> (a + seq![sep] + b).subrange(
            a.len() + 1 + from,
            a.len() + 1 + to,
        ) == b.subrange(from, to),
{
    let s = a + seq![sep] + b;
    let n = a.len() + 1;
    assert(s[n - 1] == sep);
    if from <= to <= b.len() {
        assert(s.subrange(n + from, n + to) =~= b.subrange(from, to));
        assert(from > 0 ==> s[n + from - 1] == b[from - 1]);
        assert(to < b.len() ==> s[n + to] == b[to]);
        if is_item(s, sep, n + from, n + to) {
            assert forall|k: int| from <= k < to implies b[k] != sep by {
                assert(s[n + k] == b[k]);
            }
        }
        if is_item(b, sep, from, to) {
            assert forall|k: int| n + from <= k < n + to implies s[k] != sep by {
                assert(s[k] == b[k - n]);
            }
        }
    }
}

/// A list that goes on after a separator lists what its two parts list.
pub proof fn law_items_are_separated(a: Seq<char>, b: Seq<char>, sep: char, x: Seq<char>)
    ensures
        lists(a + seq![sep] + b, sep, x) <==> lists(a, sep, x) || lists(b, sep, x),
{
    let s = a + seq![sep] + b;
    let n = a.len() + 1;
    if lists(a, sep, x) {
        let (from, to) = choose|from: int, to: int|
            #[trigger] is_item(a, sep, from, to) && x == trim(a.subrange(from, to));
        lemma_item_before(a, b, sep, from, to);
        assert(is_item(s, sep, from, to));
    }
    if lists(b, sep, x) {
        let (from, to) = choose|from: int, to: int|
            #[trigger] is_item(b, sep, from, to) && x == trim(b.subrange(from, to));
        lemma_item_after(a, b, sep, from, to);
        assert(is_item(s, sep, n + from, n + to));
    }
    if lists(s, sep, x) {
        let (from, to) = choose|from: int, to: int|
            #[trigger] is_item(s, sep, from, to) && x == trim(s.subrange(from, to));
        if to < n {
            lemma_item_before(a, b, sep, from, to);
            assert(is_item(a, sep, from, to));
        } else {
            assert(from >= n) by {
                assert(s[n - 1] == sep);
            }
            lemma_item_after(a, b, sep, from - n, to - n);
            assert(is_item(b, sep, from - n, to - n));
        }
    }
}

} // verus!
