//! Text, character by character.
//!
//! Strings are read through their characters: a `&str` becomes a slice of
//! `char`, the slice is searched and cut, and pieces become strings again.

use vstd::prelude::*;
use vstd::slice::slice_subrange;

verus! {

broadcast use vstd::string::group_string_axioms;

/// `String::push` appends one character to the string.
pub assume_specification[ String::push ](s: &mut String, c: char)
    ensures
        final(s)@ == old(s)@.push(c),
;

/// The characters of a string.
pub fn chars_of(s: &str) -> (r: Vec<char>)
    ensures
        r@ == s@,
{
    let mut r: Vec<char> = Vec::new();
    for c in it: s.chars()
        invariant
            it.seq() == s@,
            r@ == s@.take(it.index() as int),
    {
        proof {
            assert(s@.take(it.index() + 1) =~= s@.take(it.index() as int).push(c));
        }
        r.push(c);
    }
    assert(s@.take(s@.len() as int) =~= s@);
    r
}

/// The string with the given characters.
pub fn string_of(chars: &[char]) -> (r: String)
    ensures
        r@ == chars@,
{
    let mut r = String::new();
    let n: usize = chars.len();
    for i in 0..n
        invariant
            n == chars@.len(),
            r@ == chars@.take(i as int),
    {
        r.push(chars[i]);
        assert(chars@.take(i + 1) =~= chars@.take(i as int).push(chars@[i as int]));
    }
    assert(chars@.take(n as int) =~= chars@);
    r
}

/// An owned copy of a borrowed string.
pub fn owned(s: &str) -> (r: String)
    ensures
        r@ == s@,
{
    s.to_owned()
}

/// Whether two texts hold the same characters.
pub fn same_text(a: &str, b: &str) -> (r: bool)
    ensures
        r == (a@ == b@),
{
    a.to_owned() == b.to_owned()
}

/// Whether two slices hold the same characters.
pub fn same_chars(a: &[char], b: &[char]) -> (r: bool)
    ensures
        r == (a@ == b@),
{
    if a.len() != b.len() {
        return false;
    }
    let n: usize = a.len();
    for i in 0..n
        invariant
            n == a@.len(),
            n == b@.len(),
            forall|j: int| 0 <= j < i ==> a@[j] == b@[j],
    {
        if a[i] != b[i] {
            return false;
        }
    }
    assert(a@ =~= b@);
    true
}

/// Whether a slice spells the given text.
pub fn spells(a: &[char], b: &str) -> (r: bool)
    ensures
        r == (a@ == b@),
{
    let chars = chars_of(b);
    same_chars(a, chars.as_slice())
}

// ---------------------------------------------------------------------------
// whitespace
// ---------------------------------------------------------------------------

/// The characters with the Unicode `White_Space` property.
pub open spec fn is_white(c: char) -> bool {
    let u = c as u32;
    ||| 0x09 <= u <= 0x0d
    ||| u == 0x20
    ||| u == 0x85
    ||| u == 0xa0
    ||| u == 0x1680
    ||| 0x2000 <= u <= 0x200a
    ||| u == 0x2028
    ||| u == 0x2029
    ||| u == 0x202f
    ||| u == 0x205f
    ||| u == 0x3000
}

pub fn white(c: char) -> (r: bool)
    ensures
        r == is_white(c),
{
    let u: u32 = c as u32;
    (0x09 <= u && u <= 0x0d) || u == 0x20 || u == 0x85 || u == 0xa0 || u == 0x1680 || (0x2000 <= u
        && u <= 0x200a) || u == 0x2028 || u == 0x2029 || u == 0x202f || u == 0x205f || u == 0x3000
}

/// The text without its leading whitespace.
pub open spec fn trim_start(s: Seq<char>) -> Seq<char>
    decreases s.len(),
{
    if s.len() > 0 && is_white(s.first()) {
        trim_start(s.drop_first())
    } else {
        s
    }
}

/// The text without its trailing whitespace.
pub open spec fn trim_end(s: Seq<char>) -> Seq<char>
    decreases s.len(),
{
    if s.len() > 0 && is_white(s.last()) {
        trim_end(s.drop_last())
    } else {
        s
    }
}

/// The text without the whitespace around it.
pub open spec fn trim_spec(s: Seq<char>) -> Seq<char> {
    trim_end(trim_start(s))
}

/// Cut the whitespace off both ends.
pub fn trim(s: &[char]) -> (r: &[char])
    ensures
        r@ == trim_spec(s@),
{
    let n: usize = s.len();
    let mut from: usize = 0;
    assert(s@.skip(0) =~= s@);
    while from < n && white(s[from])
        invariant
            n == s@.len(),
            from <= n,
            trim_start(s@.skip(from as int)) == trim_start(s@),
        decreases n - from,
    {
        assert(s@.skip(from as int).drop_first() =~= s@.skip(from + 1));
        from = from + 1;
    }
    let ghost mid = s@.skip(from as int);
    assert(trim_start(s@) == mid);
    let mut to: usize = n;
    assert(mid =~= s@.subrange(from as int, to as int));
    while from < to && white(s[to - 1])
        invariant
            n == s@.len(),
            from <= to <= n,
            trim_end(s@.subrange(from as int, to as int)) == trim_end(mid),
        decreases to - from,
    {
        assert(s@.subrange(from as int, to as int).drop_last() =~= s@.subrange(
            from as int,
            to - 1,
        ));
        to = to - 1;
    }
    slice_subrange(s, from, to)
}

// ---------------------------------------------------------------------------
// searching
// ---------------------------------------------------------------------------

/// Whether `needle` stands in `hay` at position `i`.
pub open spec fn stands_at(hay: Seq<char>, needle: Seq<char>, i: int) -> bool {
    &&& 0 <= i
    &&& i + needle.len() <= hay.len()
    &&& hay.subrange(i, i + needle.len()) == needle
}

/// Where `needle` first stands in `hay`, at or after `from`.
pub open spec fn find_from(hay: Seq<char>, needle: Seq<char>, from: int) -> Option<int>
    decreases hay.len() + 1 - from,
{
    if from < 0 || from + needle.len() > hay.len() {
        None
    } else if stands_at(hay, needle, from) {
        Some(from)
    } else {
        find_from(hay, needle, from + 1)
    }
}

/// Where `needle` first stands in `hay`.
pub open spec fn find_spec(hay: Seq<char>, needle: Seq<char>) -> Option<int> {
    find_from(hay, needle, 0)
}

/// Whether the slice holds `needle` at `i`.
pub fn matches_at(hay: &[char], needle: &[char], i: usize) -> (r: bool)
    requires
        i + needle@.len() <= hay@.len(),
    ensures
        r == stands_at(hay@, needle@, i as int),
{
    let end: usize = hay.len();
    assert(i + needle@.len() <= end);
    same_chars(slice_subrange(hay, i, i + needle.len()), needle)
}

/// Where `needle` first stands in the slice.
pub fn find(hay: &[char], needle: &[char]) -> (r: Option<usize>)
    ensures
        match r {
            Some(i) => find_spec(hay@, needle@) == Some(i as int) && i + needle@.len() <= hay@.len(),
            None => find_spec(hay@, needle@) is None,
        },
{
    let n: usize = hay.len();
    let k: usize = needle.len();
    if k > n {
        return None;
    }
    let mut i: usize = 0;
    while i < n - k
        invariant
            n == hay@.len(),
            k == needle@.len(),
            i <= n - k,
            find_spec(hay@, needle@) == find_from(hay@, needle@, i as int),
        decreases n - i,
    {
        if matches_at(hay, needle, i) {
            return Some(i);
        }
        i = i + 1;
    }
    if matches_at(hay, needle, i) {
        Some(i)
    } else {
        assert(find_from(hay@, needle@, i + 1) is None);
        None
    }
}

/// Whether the text begins with `prefix`.
pub open spec fn has_prefix(s: Seq<char>, prefix: Seq<char>) -> bool {
    stands_at(s, prefix, 0)
}

pub fn starts_with(s: &[char], prefix: &[char]) -> (r: bool)
    ensures
        r == has_prefix(s@, prefix@),
{
    prefix.len() <= s.len() && matches_at(s, prefix, 0)
}

/// What follows `prefix`, where the text begins with it.
pub open spec fn after_prefix(s: Seq<char>, prefix: Seq<char>) -> Option<Seq<char>> {
    if has_prefix(s, prefix) {
        Some(s.skip(prefix.len() as int))
    } else {
        None
    }
}

pub fn strip_prefix<'a>(s: &'a [char], prefix: &[char]) -> (r: Option<&'a [char]>)
    ensures
        match r {
            Some(rest) => after_prefix(s@, prefix@) == Some(rest@),
            None => after_prefix(s@, prefix@) is None,
        },
{
    if starts_with(s, prefix) {
        assert(s@.skip(prefix@.len() as int) =~= s@.subrange(
            prefix@.len() as int,
            s@.len() as int,
        ));
        Some(slice_subrange(s, prefix.len(), s.len()))
    } else {
        None
    }
}

/// Where a character first stands, at or after `from`.
pub open spec fn index_from(s: Seq<char>, c: char, from: int) -> Option<int>
    decreases s.len() - from,
{
    if from < 0 || from >= s.len() {
        None
    } else if s[from] == c {
        Some(from)
    } else {
        index_from(s, c, from + 1)
    }
}

/// Where a character first stands.
pub open spec fn index_spec(s: Seq<char>, c: char) -> Option<int> {
    index_from(s, c, 0)
}

pub fn index_of(s: &[char], c: char) -> (r: Option<usize>)
    ensures
        match r {
            Some(i) => index_spec(s@, c) == Some(i as int) && i < s@.len() && s@[i as int] == c,
            None => index_spec(s@, c) is None,
        },
{
    let n: usize = s.len();
    let mut i: usize = 0;
    while i < n
        invariant
            n == s@.len(),
            i <= n,
            index_spec(s@, c) == index_from(s@, c, i as int),
        decreases n - i,
    {
        if s[i] == c {
            return Some(i);
        }
        i = i + 1;
    }
    None
}

/// Where a character last stands before `to`.
pub open spec fn last_index_before(s: Seq<char>, c: char, to: int) -> Option<int>
    decreases to,
{
    if to <= 0 {
        None
    } else if s[to - 1] == c {
        Some(to - 1)
    } else {
        last_index_before(s, c, to - 1)
    }
}

/// Where a character last stands.
pub open spec fn last_index_spec(s: Seq<char>, c: char) -> Option<int> {
    last_index_before(s, c, s.len() as int)
}

pub fn last_index_of(s: &[char], c: char) -> (r: Option<usize>)
    ensures
        match r {
            Some(i) => last_index_spec(s@, c) == Some(i as int) && i < s@.len() && s@[i as int] == c,
            None => last_index_spec(s@, c) is None,
        },
{
    let mut to: usize = s.len();
    while to > 0
        invariant
            to <= s@.len(),
            last_index_spec(s@, c) == last_index_before(s@, c, to as int),
        decreases to,
    {
        if s[to - 1] == c {
            return Some(to - 1);
        }
        to = to - 1;
    }
    None
}

/// The two sides of the first `c`.
pub open spec fn split_once_spec(s: Seq<char>, c: char) -> Option<(Seq<char>, Seq<char>)> {
    match index_spec(s, c) {
        Some(i) => Some((s.take(i), s.skip(i + 1))),
        None => None,
    }
}

pub fn split_once<'a>(s: &'a [char], c: char) -> (r: Option<(&'a [char], &'a [char])>)
    ensures
        match r {
            Some(pair) => split_once_spec(s@, c) == Some((pair.0@, pair.1@)),
            None => split_once_spec(s@, c) is None,
        },
{
    match index_of(s, c) {
        Some(i) => {
            let n: usize = s.len();
            let a = slice_subrange(s, 0, i);
            let b = slice_subrange(s, i + 1, n);
            assert(a@ =~= s@.take(i as int));
            assert(b@ =~= s@.skip(i + 1));
            Some((a, b))
        },
        None => None,
    }
}

// ---------------------------------------------------------------------------
// lines
// ---------------------------------------------------------------------------

/// A line without the carriage return that a line feed leaves behind.
pub open spec fn without_return(line: Seq<char>) -> Seq<char> {
    if line.len() > 0 && line.last() == '\r' {
        line.drop_last()
    } else {
        line
    }
}

/// The lines of a text: each ends at a line feed, the last one also where the
/// text ends. A carriage return right before the line feed belongs to the
/// line ending.
pub open spec fn lines_spec(s: Seq<char>) -> Seq<Seq<char>>
    decreases s.len(),
{
    if s.len() == 0 {
        Seq::empty()
    } else {
        match index_spec(s, '\n') {
            Some(i) => if 0 <= i < s.len() {
                seq![without_return(s.take(i))] + lines_spec(s.skip(i + 1))
            } else {
                Seq::empty()
            },
            None => seq![s],
        }
    }
}

/// Cut a text into its lines.
pub fn lines<'a>(s: &'a [char]) -> (r: Vec<&'a [char]>)
    ensures
        r@.len() == lines_spec(s@).len(),
        forall|i: int| 0 <= i < r@.len() ==> (#[trigger] r@[i])@ == lines_spec(s@)[i],
{
    let mut r: Vec<&'a [char]> = Vec::new();
    let mut rest: &'a [char] = s;
    while rest.len() > 0
        invariant
            r@.len() + lines_spec(rest@).len() == lines_spec(s@).len(),
            forall|i: int| 0 <= i < r@.len() ==> (#[trigger] r@[i])@ == lines_spec(s@)[i],
            forall|i: int|
                0 <= i < lines_spec(rest@).len() ==> #[trigger] lines_spec(rest@)[i] == lines_spec(
                    s@,
                )[r@.len() + i],
        decreases rest@.len(),
    {
        let ghost before = lines_spec(rest@);
        let ghost done = r@.len();
        match index_of(rest, '\n') {
            Some(i) => {
                let cut: usize = if i > 0 && rest[i - 1] == '\r' {
                    i - 1
                } else {
                    i
                };
                let n: usize = rest.len();
                let line = slice_subrange(rest, 0, cut);
                let tail = slice_subrange(rest, i + 1, n);
                proof {
                    assert(line@ =~= without_return(rest@.take(i as int)));
                    assert(tail@ =~= rest@.skip(i + 1));
                    assert(before =~= seq![line@] + lines_spec(tail@));
                    assert(before[0] == lines_spec(s@)[done as int]);
                    assert forall|k: int| 0 <= k < lines_spec(tail@).len() implies #[trigger] lines_spec(
                        tail@,
                    )[k] == lines_spec(s@)[done + 1 + k] by {
                        assert(before[k + 1] == lines_spec(tail@)[k]);
                    }
                }
                r.push(line);
                rest = tail;
            },
            None => {
                proof {
                    assert(before =~= seq![rest@]);
                    assert(before[0] == lines_spec(s@)[done as int]);
                }
                r.push(rest);
                let tail = slice_subrange(rest, 0, 0);
                rest = tail;
            },
        }
    }
    r
}

// ---------------------------------------------------------------------------
// order
// ---------------------------------------------------------------------------

/// The code point of a character.
fn code_of(c: char) -> (r: u32)
    ensures
        r as int == c as int,
{
    c as u32
}

/// Dictionary order by code point.
pub open spec fn text_lt(a: Seq<char>, b: Seq<char>) -> bool
    decreases a.len(),
{
    if b.len() == 0 {
        false
    } else if a.len() == 0 {
        true
    } else if a.first() != b.first() {
        (a.first() as int) < (b.first() as int)
    } else {
        text_lt(a.drop_first(), b.drop_first())
    }
}

pub proof fn lemma_text_lt_irreflexive(a: Seq<char>)
    ensures
        !text_lt(a, a),
    decreases a.len(),
{
    if a.len() > 0 {
        lemma_text_lt_irreflexive(a.drop_first());
    }
}

pub proof fn lemma_text_lt_transitive(a: Seq<char>, b: Seq<char>, c: Seq<char>)
    requires
        text_lt(a, b),
        text_lt(b, c),
    ensures
        text_lt(a, c),
    decreases a.len(),
{
    if a.len() > 0 && a.first() == b.first() && b.first() == c.first() {
        lemma_text_lt_transitive(a.drop_first(), b.drop_first(), c.drop_first());
    }
}

pub proof fn lemma_text_lt_total(a: Seq<char>, b: Seq<char>)
    requires
        a != b,
    ensures
        text_lt(a, b) || text_lt(b, a),
    decreases a.len(),
{
    if a.len() > 0 && b.len() > 0 && a.first() == b.first() {
        assert(a =~= seq![a.first()] + a.drop_first());
        assert(b =~= seq![b.first()] + b.drop_first());
        lemma_text_lt_total(a.drop_first(), b.drop_first());
    } else if a.len() == 0 && b.len() == 0 {
        assert(a =~= b);
    }
}

/// Whether `a` comes before `b` in dictionary order.
pub fn text_before(a: &str, b: &str) -> (r: bool)
    ensures
        r == text_lt(a@, b@),
{
    let x = chars_of(a);
    let y = chars_of(b);
    let mut i: usize = 0;
    assert(x@.skip(0) =~= x@);
    assert(y@.skip(0) =~= y@);
    while i < x.len() && i < y.len()
        invariant
            i <= x@.len(),
            i <= y@.len(),
            x@ == a@,
            y@ == b@,
            text_lt(a@, b@) == text_lt(x@.skip(i as int), y@.skip(i as int)),
        decreases x@.len() - i,
    {
        if x[i] != y[i] {
            return code_of(x[i]) < code_of(y[i]);
        }
        assert(x@.skip(i as int).drop_first() =~= x@.skip(i + 1));
        assert(y@.skip(i as int).drop_first() =~= y@.skip(i + 1));
        i = i + 1;
    }
    i < y.len()
}

// ---------------------------------------------------------------------------
// quoting and padding
// ---------------------------------------------------------------------------

/// How a text reads in quotes, with whatever does not print escaped.
pub uninterp spec fn quoted(s: Seq<char>) -> Seq<char>;

/// The `Debug` form of `str` in std: the text in double quotes, with quotes,
/// backslashes and characters that do not print escaped. Which characters those
/// are is std's table, so the result is only named.
#[verifier::external_body]
pub(crate) fn quote(s: &str) -> (r: String)
    ensures
        r@ == quoted(s@),
{
    format!("{s:?}")
}

/// A number of spaces.
pub open spec fn spaces(n: nat) -> Seq<char> {
    Seq::new(n, |i: int| ' ')
}

/// A text filled up with spaces on the right until it is `width` long.
pub open spec fn padded(s: Seq<char>, width: nat) -> Seq<char> {
    if s.len() < width {
        s + spaces((width - s.len()) as nat)
    } else {
        s
    }
}

/// Fill a text up with spaces on the right.
pub fn pad(s: &str, width: usize) -> (r: String)
    ensures
        r@ == padded(s@, width as nat),
{
    let mut r = owned(s);
    let n: usize = chars_of(s).len();
    let mut i: usize = n;
    assert(s@ + spaces(0) =~= s@);
    while i < width
        invariant
            n == s@.len(),
            n <= i,
            i <= width || i == n,
            r@ == s@ + spaces((i - n) as nat),
        decreases width - i,
    {
        r.push(' ');
        assert(s@ + spaces((i + 1 - n) as nat) =~= (s@ + spaces((i - n) as nat)).push(' '));
        i = i + 1;
    }
    r
}

// ---------------------------------------------------------------------------
// sorting
// ---------------------------------------------------------------------------

/// Whether the text at `a` comes before the one at `b`: by the texts, and for
/// equal texts by the places they had.
pub open spec fn comes_before(keys: Seq<Seq<char>>, a: int, b: int) -> bool {
    text_lt(keys[a], keys[b]) || (keys[a] == keys[b] && a < b)
}

/// Whether `order` lists every place of `keys` once, in ascending order of the
/// texts there.
pub open spec fn sorts(keys: Seq<Seq<char>>, order: Seq<int>) -> bool {
    &&& order.len() == keys.len()
    &&& forall|i: int| 0 <= i < order.len() ==> 0 <= #[trigger] order[i] < keys.len()
    &&& forall|i: int, j: int| 0 <= i < j < order.len() ==> comes_before(keys, #[trigger] order[i], #[trigger] order[j])
}

/// The places that an order of machine integers lists.
pub open spec fn places(order: Seq<usize>) -> Seq<int> {
    order.map_values(|i: usize| i as int)
}

/// Whether `sorted` holds the texts of `keys` in ascending order.
pub open spec fn is_sorted(keys: Seq<Seq<char>>, sorted: Seq<Seq<char>>) -> bool {
    exists|order: Seq<int>| #[trigger] sorts(keys, order) && sorted == order.map_values(|i: int| keys[i])
}

/// What a list of borrowed texts says, in order.
pub open spec fn strs_view(s: Seq<&str>) -> Seq<Seq<char>> {
    s.map_values(|k: &str| k@)
}

/// Work out the order in which texts sort, keeping equal ones in place.
pub fn sort_order(keys: &Vec<&str>) -> (r: Vec<usize>)
    ensures
        sorts(strs_view(keys@), places(r@)),
{
    let n: usize = keys.len();
    let ghost all = strs_view(keys@);
    let mut r: Vec<usize> = Vec::new();
    for i in 0..n
        invariant
            n == keys@.len(),
            all == strs_view(keys@),
            r@.len() == i,
            forall|j: int| 0 <= j < i ==> 0 <= #[trigger] r@[j] < i,
            forall|a: int, b: int| 0 <= a < b < i ==> comes_before(all, #[trigger] r@[a] as int, #[trigger] r@[b] as int),
    {
        let ghost before = r@;
        let mut at: usize = i;
        while at > 0 && text_before(keys[i], keys[r[at - 1]])
            invariant
                at <= i,
                i < n,
                n == keys@.len(),
                all == strs_view(keys@),
                r@ == before,
                r@.len() == i,
                forall|j: int| 0 <= j < i ==> 0 <= #[trigger] r@[j] < i,
                forall|j: int| at <= j < i ==> text_lt(all[i as int], all[#[trigger] r@[j] as int]),
            decreases at,
        {
            at = at - 1;
        }
        r.insert(at, i);
        assert forall|a: int, b: int| 0 <= a < b < i + 1 implies comes_before(
            all,
            #[trigger] r@[a] as int,
            #[trigger] r@[b] as int,
        ) by {
            let pa = if a <= at { a } else { a - 1 };
            let pb = if b <= at { b } else { b - 1 };
            if a == at {
                assert(r@[b] == before[b - 1]);
                assert(text_lt(all[i as int], all[before[b - 1] as int]));
            } else if b == at {
                assert(r@[a] == before[a]);
                // The entry just before the place does not come after the new one.
                let prev = before[at - 1] as int;
                assert(!text_lt(all[i as int], all[prev]));
                if all[prev] != all[i as int] {
                    lemma_text_lt_total(all[prev], all[i as int]);
                }
                if a < at - 1 {
                    assert(comes_before(all, before[a] as int, prev));
                    if text_lt(all[before[a] as int], all[prev]) && text_lt(all[prev], all[i as int]) {
                        lemma_text_lt_transitive(all[before[a] as int], all[prev], all[i as int]);
                    }
                }
            } else {
                assert(r@[a] == before[pa]);
                assert(r@[b] == before[pb]);
            }
        }
        assert forall|j: int| 0 <= j < i + 1 implies 0 <= #[trigger] r@[j] < i + 1 by {
            if j < at {
                assert(r@[j] == before[j]);
            } else if j > at {
                assert(r@[j] == before[j - 1]);
            }
        }
    }
    let ghost order = places(r@);
    assert forall|i: int, j: int| 0 <= i < j < order.len() implies comes_before(
        all,
        #[trigger] order[i],
        #[trigger] order[j],
    ) by {
        assert(order[i] == r@[i] as int && order[j] == r@[j] as int);
    }
    r
}

// -- laws -------------------------------------------------------------------

/// White space is what separates words: blanks, tabs and line ends, and their
/// kin beyond ASCII. No letter, digit or sign of ASCII is.
pub proof fn law_white_space_separates(c: char)
    ensures
        c == ' ' || c == '\t' || c == '\n' || c == '\r' ==> is_white(c),
        '!' <= c && c <= '~' ==> !is_white(c),
        is_white(c) <==> {
            let u = c as u32;
            ||| 9 <= u <= 13 || u == 32 || u == 133 || u == 160 || u == 5760 || 8192 <= u <= 8202
            ||| u == 8232 || u == 8233 || u == 8239 || u == 8287 || u == 12288
        },
{
}

proof fn lemma_trim_start(s: Seq<char>) -> (i: int)
    ensures
        0 <= i <= s.len(),
        trim_start(s) == s.skip(i),
        forall|k: int| 0 <= k < i ==> is_white(#[trigger] s[k]),
        i < s.len() ==> !is_white(s[i]),
    decreases s.len(),
{
    if s.len() > 0 && is_white(s.first()) {
        let rest = s.drop_first();
        let j = lemma_trim_start(rest);
        assert(s.skip(j + 1) =~= rest.skip(j));
        assert forall|k: int| 0 <= k < j + 1 implies is_white(#[trigger] s[k]) by {
            if k > 0 {
                assert(rest[k - 1] == s[k]);
            }
        }
        if j + 1 < s.len() {
            assert(rest[j] == s[j + 1]);
        }
        j + 1
    } else {
        assert(s.skip(0) =~= s);
        0
    }
}

proof fn lemma_trim_end(s: Seq<char>) -> (j: int)
    ensures
        0 <= j <= s.len(),
        trim_end(s) == s.take(j),
        forall|k: int| j <= k < s.len() ==> is_white(#[trigger] s[k]),
        j > 0 ==> !is_white(s[j - 1]),
    decreases s.len(),
{
    if s.len() > 0 && is_white(s.last()) {
        let rest = s.drop_last();
        let j = lemma_trim_end(rest);
        assert(s.take(j) =~= rest.take(j));
        assert forall|k: int| j <= k < s.len() implies is_white(#[trigger] s[k]) by {
            if k < rest.len() {
                assert(rest[k] == s[k]);
            }
        }
        j
    } else {
        assert(s.take(s.len() as int) =~= s);
        s.len() as int
    }
}

/// Trimming takes white space off both ends and nothing else: what is left
/// begins and ends with something else, unless nothing is left.
pub proof fn law_trimming_takes_only_white_space(s: Seq<char>) -> (r: (int, int))
    ensures
        0 <= r.0 <= r.1 <= s.len(),
        trim_spec(s) == s.subrange(r.0, r.1),
        forall|k: int| 0 <= k < r.0 ==> is_white(#[trigger] s[k]),
        forall|k: int| r.1 <= k < s.len() ==> is_white(#[trigger] s[k]),
        trim_spec(s).len() > 0 ==> !is_white(trim_spec(s)[0]) && !is_white(trim_spec(s).last()),
{
    let i = lemma_trim_start(s);
    let t = s.skip(i);
    let j = lemma_trim_end(t);
    assert(s.subrange(i, i + j) =~= t.take(j));
    assert forall|k: int| i + j <= k < s.len() implies is_white(#[trigger] s[k]) by {
        assert(t[k - i] == s[k]);
    }
    if j > 0 {
        assert(t[0] == s[i]);
        assert(trim_spec(s)[0] == t[0]);
        assert(trim_spec(s).last() == t[j - 1]);
    }
    (i, i + j)
}

proof fn lemma_find_from(hay: Seq<char>, needle: Seq<char>, from: int)
    requires
        0 <= from,
    ensures
        match find_from(hay, needle, from) {
            Some(i) => from <= i && i + needle.len() <= hay.len() && hay.subrange(i, i + needle.len()) == needle
                && forall|j: int|
                from <= j < i ==> #[trigger] hay.subrange(j, j + needle.len()) != needle,
            None => forall|j: int|
                from <= j && j + needle.len() <= hay.len() ==> #[trigger] hay.subrange(j, j + needle.len()) != needle,
        },
    decreases hay.len() + 1 - from,
{
    if from + needle.len() <= hay.len() && !stands_at(hay, needle, from) {
        lemma_find_from(hay, needle, from + 1);
        assert(hay.subrange(from, from + needle.len()) != needle);
    }
}

/// What is searched for is found where it stands first, and is not found only
/// where it stands nowhere.
pub proof fn law_the_first_place_is_found(hay: Seq<char>, needle: Seq<char>)
    ensures
        match find_spec(hay, needle) {
            Some(i) => 0 <= i && i + needle.len() <= hay.len() && hay.subrange(i, i + needle.len()) == needle
                && forall|j: int| 0 <= j < i ==> #[trigger] hay.subrange(j, j + needle.len()) != needle,
            None => forall|j: int|
                0 <= j && j + needle.len() <= hay.len() ==> #[trigger] hay.subrange(j, j + needle.len()) != needle,
        },
{
    lemma_find_from(hay, needle, 0);
}

/// A text has a prefix exactly when it is the prefix and something more, or
/// nothing more, and what is left is that.
pub proof fn law_a_prefix_is_taken_off(s: Seq<char>, prefix: Seq<char>, rest: Seq<char>)
    ensures
        after_prefix(prefix + rest, prefix) == Some(rest),
        after_prefix(s, prefix) matches Some(r) ==> s == prefix + r,
        after_prefix(s, prefix) is Some <==> has_prefix(s, prefix),
{
    assert((prefix + rest).subrange(0, prefix.len() as int) =~= prefix);
    assert((prefix + rest).skip(prefix.len() as int) =~= rest);
    if has_prefix(s, prefix) {
        assert(s =~= prefix + s.skip(prefix.len() as int)) by {
            assert(s.subrange(0, prefix.len() as int) == prefix);
            assert forall|k: int| 0 <= k < prefix.len() implies s[k] == prefix[k] by {
                assert(s.subrange(0, prefix.len() as int)[k] == s[k]);
            }
        }
    }
}

proof fn lemma_index_from(s: Seq<char>, c: char, from: int)
    requires
        0 <= from,
    ensures
        match index_from(s, c, from) {
            Some(i) => from <= i < s.len() && s[i] == c && forall|j: int| from <= j < i ==> #[trigger] s[j] != c,
            None => forall|j: int| from <= j < s.len() ==> #[trigger] s[j] != c,
        },
    decreases s.len() - from,
{
    if from < s.len() && s[from] != c {
        lemma_index_from(s, c, from + 1);
    }
}

/// A character is found where it stands first.
pub proof fn law_the_first_of_a_character(s: Seq<char>, c: char)
    ensures
        match index_spec(s, c) {
            Some(i) => 0 <= i < s.len() && s[i] == c && forall|j: int| 0 <= j < i ==> #[trigger] s[j] != c,
            None => forall|j: int| 0 <= j < s.len() ==> #[trigger] s[j] != c,
        },
{
    lemma_index_from(s, c, 0);
}

proof fn lemma_last_index(s: Seq<char>, c: char, to: int)
    requires
        to <= s.len(),
    ensures
        match last_index_before(s, c, to) {
            Some(i) => 0 <= i < to && s[i] == c && forall|j: int| i < j < to ==> #[trigger] s[j] != c,
            None => forall|j: int| 0 <= j < to ==> #[trigger] s[j] != c,
        },
    decreases to,
{
    if to > 0 && s[to - 1] != c {
        lemma_last_index(s, c, to - 1);
    }
}

/// The last place of a character is the one that none of it comes after.
pub proof fn law_the_last_of_a_character(s: Seq<char>, c: char)
    ensures
        match last_index_spec(s, c) {
            Some(i) => 0 <= i < s.len() && s[i] == c && forall|j: int| i < j < s.len() ==> #[trigger] s[j] != c,
            None => forall|j: int| 0 <= j < s.len() ==> #[trigger] s[j] != c,
        },
{
    lemma_last_index(s, c, s.len() as int);
}

/// A text is split where the separator stands first: putting the halves back
/// together round it gives the text, and the first half is free of it. There is
/// no splitting only where there is no separator.
pub proof fn law_a_split_comes_together(s: Seq<char>, c: char, a: Seq<char>, b: Seq<char>)
    ensures
        !a.contains(c) ==> split_once_spec(a + seq![c] + b, c) == Some((a, b)),
        split_once_spec(s, c) matches Some(halves) ==> s == halves.0 + seq![c] + halves.1 && !halves.0.contains(c),
        split_once_spec(s, c) is None <==> !s.contains(c),
{
    law_the_first_of_a_character(s, c);
    if let Some(i) = index_spec(s, c) {
        assert(s =~= s.take(i) + seq![c] + s.skip(i + 1));
        assert forall|k: int| 0 <= k < i implies #[trigger] s.take(i)[k] != c by {
            assert(s[k] != c);
        }
        assert(s.contains(c));
    }
    if !a.contains(c) {
        let all = a + seq![c] + b;
        law_the_first_of_a_character(all, c);
        assert(all[a.len() as int] == c);
        let i = index_spec(all, c)->0;
        if i < a.len() {
            assert(a[i] == all[i]);
            assert(a.contains(c));
        }
        if i > a.len() {
            assert(all[a.len() as int] != c);
        }
        assert(all.take(i) =~= a);
        assert(all.skip(i + 1) =~= b);
    }
}

/// A text is read line by line: what stands before the first line end is the
/// first line, without the return before it, and what follows is read on. A last
/// line needs no line end, and an empty text has no line.
pub proof fn law_a_text_is_read_line_by_line(a: Seq<char>, b: Seq<char>)
    requires
        !a.contains('\n'),
    ensures
        lines_spec(Seq::empty()) == Seq::<Seq<char>>::empty(),
        a.len() > 0 ==> lines_spec(a) == seq![a],
        lines_spec(a + seq!['\n'] + b) == seq![without_return(a)] + lines_spec(b),
        without_return(a.push('\r')) == a,
        a.len() == 0 || a.last() != '\r' ==> without_return(a) == a,
{
    law_the_first_of_a_character(a, '\n');
    if let Some(i) = index_spec(a, '\n') {
        assert(a.contains('\n'));
    }
    let all = a + seq!['\n'] + b;
    law_a_split_comes_together(all, '\n', a, b);
    law_the_first_of_a_character(all, '\n');
    let i = index_spec(all, '\n')->0;
    assert(all.take(i) == a && all.skip(i + 1) == b);
    assert(a.push('\r').drop_last() =~= a);
}

/// Texts are ordered by the first character in which they differ, and a text
/// comes before every longer one that begins with it.
pub proof fn law_texts_differ_at_one_place(a: Seq<char>, b: Seq<char>, k: int)
    requires
        0 <= k <= a.len() && k <= b.len(),
        forall|i: int| 0 <= i < k ==> #[trigger] a[i] == b[i],
        k < a.len() && k < b.len() ==> a[k] != b[k],
    ensures
        k < a.len() && k < b.len() ==> (text_lt(a, b) <==> (a[k] as int) < (b[k] as int)),
        k == a.len() ==> (text_lt(a, b) <==> b.len() > k),
        k == b.len() ==> !text_lt(a, b),
    decreases k,
{
    if k > 0 {
        assert(a[0] == b[0]);
        let (x, y) = (a.drop_first(), b.drop_first());
        assert forall|i: int| 0 <= i < k - 1 implies #[trigger] x[i] == y[i] by {
            assert(a[i + 1] == b[i + 1]);
        }
        law_texts_differ_at_one_place(x, y, k - 1);
    }
}

/// Padding fills a text up with blanks behind it, to the width asked for, and
/// leaves a longer one as it is.
pub proof fn law_padding_fills_up_behind(s: Seq<char>, width: nat)
    ensures
        s.len() >= width ==> padded(s, width) == s,
        s.len() < width ==> padded(s, width).len() == width && padded(s, width).take(s.len() as int) == s && forall|
            k: int,
        |
            s.len() <= k < width ==> #[trigger] padded(s, width)[k] == ' ',
{
    if s.len() < width {
        assert(padded(s, width).take(s.len() as int) =~= s);
    }
}

/// Sorting puts every text in one place, none twice, and none before one that it
/// should come after. Equal texts keep their order.
pub proof fn law_sorting_orders_what_is_there(keys: Seq<Seq<char>>, order: Seq<int>, i: int, j: int)
    requires
        sorts(keys, order),
        0 <= i < j < order.len(),
    ensures
        order.len() == keys.len(),
        0 <= order[i] < keys.len(),
        0 <= order[j] < keys.len(),
        order[i] != order[j],
        !text_lt(keys[order[j]], keys[order[i]]),
        keys[order[i]] == keys[order[j]] ==> order[i] < order[j],
{
    assert(comes_before(keys, order[i], order[j]));
    lemma_text_lt_irreflexive(keys[order[i]]);
    if text_lt(keys[order[i]], keys[order[j]]) && text_lt(keys[order[j]], keys[order[i]]) {
        lemma_text_lt_transitive(keys[order[i]], keys[order[j]], keys[order[i]]);
    }
}

/// A sorted list has as many texts as there were, each one of them, in order.
pub proof fn law_a_sorted_list_is_in_order(keys: Seq<Seq<char>>, sorted: Seq<Seq<char>>, i: int)
    requires
        is_sorted(keys, sorted),
        0 <= i < sorted.len(),
    ensures
        sorted.len() == keys.len(),
        keys.contains(sorted[i]),
        forall|j: int| i < j < sorted.len() ==> !text_lt(#[trigger] sorted[j], sorted[i]),
{
    let order = choose|order: Seq<int>|
        #[trigger] sorts(keys, order) && sorted == order.map_values(|i: int| keys[i]);
    assert(sorted[i] == keys[order[i]]);
    assert forall|j: int| i < j < sorted.len() implies !text_lt(#[trigger] sorted[j], sorted[i]) by {
        law_sorting_orders_what_is_there(keys, order, i, j);
    }
}

} // verus!
