use vstd::prelude::*;

verus! {

/// `String::push`: appends one character to the end of the string.
#[verifier::external_body]
fn push_char(s: &mut String, c: char)
    ensures
        final(s)@ == old(s)@.push(c),
{
    s.push(c);
}

/// The characters of a string slice, in order.
pub fn chars_of(s: &str) -> (r: Vec<char>)
    ensures
        r@ == s@,
{
    let mut r: Vec<char> = Vec::new();
    for c in it: s.chars()
        invariant
            it.seq() == s@,
            r@ == s@.take(it.index() as int),
    {
        r.push(c);
    }
    assert(r@ == s@);
    r
}

/// A string holding exactly the given characters.
pub fn string_of(v: &Vec<char>) -> (r: String)
    ensures
        r@ == v@,
{
    let mut r = String::new();
    let mut i: usize = 0;
    while i < v.len()
        invariant
            i <= v.len(),
            r@ == v@.take(i as int),
        decreases v.len() - i,
    {
        push_char(&mut r, v[i]);
        assert(v@.take(i as int + 1) == v@.take(i as int).push(v@[i as int]));
        i += 1;
    }
    assert(v@.take(v.len() as int) == v@);
    r
}


/// Unicode `White_Space` characters, the ones `char::is_whitespace` accepts.
pub open spec fn is_ws(c: char) -> bool {
    let u = c as u32;
    ||| 0x9 <= u <= 0xd
    ||| u == 0x20
    ||| u == 0x85
    ||| u == 0xa0
    ||| u == 0x1680
    ||| 0x2000 <= u <= 0x200a
    ||| u == 0x2028
    ||| u == 0x2029
    ||| u == 0x202f
    ||| u == 0x205f
    ||| u == 0x3000
}

pub fn is_whitespace(c: char) -> (r: bool)
    ensures
        r == is_ws(c),
{
    let u = c as u32;
    (0x9 <= u && u <= 0xd) || u == 0x20 || u == 0x85 || u == 0xa0 || u == 0x1680 || (0x2000 <= u
        && u <= 0x200a) || u == 0x2028 || u == 0x2029 || u == 0x202f || u == 0x205f || u == 0x3000
}

/// A class of characters that the scanning helpers stop at or pass over.
#[derive(Clone, Copy)]
pub enum CharSet {
    Whitespace,
    Char(char),
    /// The single and the double quotation mark.
    Quotes,
}

impl CharSet {
    pub open spec fn has(self, c: char) -> bool {
        match self {
            CharSet::Whitespace => is_ws(c),
            CharSet::Char(x) => c == x,
            CharSet::Quotes => c == '\'' || c == '"',
        }
    }

    pub fn contains(&self, c: char) -> (r: bool)
        ensures
            r == self.has(c),
    {
        match self {
            CharSet::Whitespace => is_whitespace(c),
            CharSet::Char(x) => c == *x,
            CharSet::Quotes => c == '\'' || c == '"',
        }
    }
}

/// `i` is the first position of `s` whose character's membership in `set` is `want`
/// (or the end of `s` when there is none).
pub open spec fn stops_at(s: Seq<char>, set: CharSet, want: bool, i: int) -> bool {
    &&& 0 <= i <= s.len()
    &&& i < s.len() ==> set.has(s[i]) == want
    &&& forall|j: int| 0 <= j < i ==> set.has(s[j]) != want
}

pub open spec fn scan(s: Seq<char>, set: CharSet, want: bool) -> int {
    choose|i: int| stops_at(s, set, want, i)
}

/// `k` is the length of the longest prefix of `s` whose last character's membership in
/// `set` is `want`, with no such character after it (0 when there is none).
pub open spec fn rstops_at(s: Seq<char>, set: CharSet, want: bool, k: int) -> bool {
    &&& 0 <= k <= s.len()
    &&& k > 0 ==> set.has(s[k - 1]) == want
    &&& forall|j: int| k <= j < s.len() ==> set.has(s[j]) != want
}

pub open spec fn rscan(s: Seq<char>, set: CharSet, want: bool) -> int {
    choose|k: int| rstops_at(s, set, want, k)
}

pub proof fn lemma_stops_at_unique(s: Seq<char>, set: CharSet, want: bool, i: int)
    requires
        stops_at(s, set, want, i),
    ensures
        scan(s, set, want) == i,
{
    let c = scan(s, set, want);
    assert(stops_at(s, set, want, c));
    if c < i {
        assert(set.has(s[c]) != want);
    } else if i < c {
        assert(set.has(s[i]) != want);
    }
}

pub proof fn lemma_scan(s: Seq<char>, set: CharSet, want: bool)
    ensures
        stops_at(s, set, want, scan(s, set, want)),
    decreases s.len(),
{
    if s.len() == 0 {
        lemma_stops_at_unique(s, set, want, 0);
    } else if set.has(s[0]) == want {
        lemma_stops_at_unique(s, set, want, 0);
    } else {
        let t = s.drop_first();
        lemma_scan(t, set, want);
        let k = scan(t, set, want);
        assert forall|j: int| 0 <= j < k + 1 implies set.has(s[j]) != want by {
            if j > 0 {
                assert(s[j] == t[j - 1]);
            }
        }
        lemma_stops_at_unique(s, set, want, k + 1);
    }
}

pub proof fn lemma_rstops_at_unique(s: Seq<char>, set: CharSet, want: bool, k: int)
    requires
        rstops_at(s, set, want, k),
    ensures
        rscan(s, set, want) == k,
{
    let c = rscan(s, set, want);
    assert(rstops_at(s, set, want, c));
    if c < k {
        assert(set.has(s[k - 1]) != want);
    } else if k < c {
        assert(set.has(s[c - 1]) != want);
    }
}

pub proof fn lemma_rscan(s: Seq<char>, set: CharSet, want: bool)
    ensures
        rstops_at(s, set, want, rscan(s, set, want)),
    decreases s.len(),
{
    if s.len() == 0 {
        lemma_rstops_at_unique(s, set, want, 0);
    } else if set.has(s.last()) == want {
        lemma_rstops_at_unique(s, set, want, s.len() as int);
    } else {
        let t = s.drop_last();
        lemma_rscan(t, set, want);
        let k = rscan(t, set, want);
        assert forall|j: int| k <= j < s.len() implies set.has(s[j]) != want by {
            if j < s.len() - 1 {
                assert(s[j] == t[j]);
            }
        }
        lemma_rstops_at_unique(s, set, want, k);
    }
}

/// `s` with the leading characters of `set` removed.
pub open spec fn trim_start_set(s: Seq<char>, set: CharSet) -> Seq<char> {
    s.skip(scan(s, set, false))
}

/// `s` with the trailing characters of `set` removed.
pub open spec fn trim_end_set(s: Seq<char>, set: CharSet) -> Seq<char> {
    s.take(rscan(s, set, false))
}

/// `s` with the characters of `set` removed from both ends (`str::trim_matches`).
pub open spec fn trim_set(s: Seq<char>, set: CharSet) -> Seq<char> {
    trim_end_set(trim_start_set(s, set), set)
}

/// `str::trim`: `s` without leading and trailing whitespace.
pub open spec fn trim(s: Seq<char>) -> Seq<char> {
    trim_set(s, CharSet::Whitespace)
}

/// The characters `v[a..b]`.
pub fn slice(v: &Vec<char>, a: usize, b: usize) -> (r: Vec<char>)
    requires
        a <= b <= v.len(),
    ensures
        r@ == v@.subrange(a as int, b as int),
{
    let mut r: Vec<char> = Vec::new();
    let mut i = a;
    while i < b
        invariant
            a <= i <= b <= v.len(),
            r@ == v@.subrange(a as int, i as int),
        decreases b - i,
    {
        r.push(v[i]);
        assert(v@.subrange(a as int, i + 1) == v@.subrange(a as int, i as int).push(v@[i as int]));
        i += 1;
    }
    r
}

/// The first position at or after `from` whose character's membership in `set` is `want`,
/// or `v.len()`.
pub fn scan_from(v: &Vec<char>, from: usize, set: CharSet, want: bool) -> (r: usize)
    requires
        from <= v.len(),
    ensures
        from <= r <= v.len(),
        r - from == scan(v@.skip(from as int), set, want),
{
    let mut i = from;
    while i < v.len() && set.contains(v[i]) != want
        invariant
            from <= i <= v.len(),
            forall|j: int| from <= j < i ==> set.has(v@[j]) != want,
        decreases v.len() - i,
    {
        i += 1;
    }
    proof {
        let t = v@.skip(from as int);
        assert(stops_at(t, set, want, i - from));
        lemma_stops_at_unique(t, set, want, i - from);
    }
    i
}

/// The length of the longest prefix of `v[..to]` that ends in a character whose membership
/// in `set` is `want`, with none after it; at least `lo` is assumed.
fn rscan_to(v: &Vec<char>, lo: usize, to: usize, set: CharSet, want: bool) -> (r: usize)
    requires
        lo <= to <= v.len(),
    ensures
        lo <= r <= to,
        r > lo ==> set.has(v@[r - 1]) == want,
        forall|j: int| r <= j < to ==> set.has(v@[j]) != want,
{
    let mut k = to;
    while k > lo && set.contains(v[k - 1]) != want
        invariant
            lo <= k <= to <= v.len(),
            forall|j: int| k <= j < to ==> set.has(v@[j]) != want,
        decreases k,
    {
        k -= 1;
    }
    k
}

/// `str::trim_matches` with a character class.
pub fn trim_set_vec(v: &Vec<char>, set: CharSet) -> (r: Vec<char>)
    ensures
        r@ == trim_set(v@, set),
{
    let i = scan_from(v, 0, set, false);
    let k = rscan_to(v, i, v.len(), set, false);
    proof {
        assert(v@.skip(0) == v@);
        let t = v@.skip(i as int);
        assert(trim_start_set(v@, set) == t);
        assert(rstops_at(t, set, false, k - i));
        lemma_rstops_at_unique(t, set, false, k - i);
        assert(t.take(k - i) == v@.subrange(i as int, k as int));
    }
    slice(v, i, k)
}

pub fn trim_vec(v: &Vec<char>) -> (r: Vec<char>)
    ensures
        r@ == trim(v@),
{
    trim_set_vec(v, CharSet::Whitespace)
}


/// `p` occurs in `s` at position `i`.
pub open spec fn matches_at(s: Seq<char>, p: Seq<char>, i: int) -> bool {
    0 <= i && i + p.len() <= s.len() && s.subrange(i, i + p.len()) == p
}

pub open spec fn first_match(s: Seq<char>, p: Seq<char>, i: int) -> bool {
    matches_at(s, p, i) && forall|j: int| 0 <= j < i ==> !matches_at(s, p, j)
}

/// The position of the first occurrence of `p` in `s` (`str::find`).
pub open spec fn find(s: Seq<char>, p: Seq<char>) -> Option<int> {
    if exists|i: int| first_match(s, p, i) {
        Some(choose|i: int| first_match(s, p, i))
    } else {
        None
    }
}

/// `str::contains` with a string pattern.
pub open spec fn contains(s: Seq<char>, p: Seq<char>) -> bool {
    exists|i: int| matches_at(s, p, i)
}

/// `str::starts_with` with a string pattern.
pub open spec fn starts_with(s: Seq<char>, p: Seq<char>) -> bool {
    matches_at(s, p, 0)
}

/// `str::split_once` with a string pattern.
pub open spec fn split_once(s: Seq<char>, p: Seq<char>) -> Option<(Seq<char>, Seq<char>)> {
    match find(s, p) {
        Some(i) => Some((s.take(i), s.skip(i + p.len()))),
        None => None,
    }
}

pub proof fn lemma_first_match_unique(s: Seq<char>, p: Seq<char>, i: int)
    requires
        first_match(s, p, i),
    ensures
        find(s, p) == Some(i),
{
    let c = choose|k: int| first_match(s, p, k);
    assert(first_match(s, p, c));
    if c < i {
        assert(!matches_at(s, p, c));
    } else if i < c {
        assert(!matches_at(s, p, i));
    }
}

pub proof fn lemma_find(s: Seq<char>, p: Seq<char>)
    ensures
        find(s, p) matches Some(i) ==> first_match(s, p, i),
{
}

/// The position of the first occurrence of `p` in `v[from..]`, counted from the start of `v`.
pub fn find_from(v: &Vec<char>, from: usize, p: &Vec<char>) -> (r: Option<usize>)
    requires
        from <= v.len(),
    ensures
        match r {
            Some(i) => from <= i && find(v@.skip(from as int), p@) == Some(i - from),
            None => find(v@.skip(from as int), p@) is None && !contains(v@.skip(from as int), p@),
        },
{
    let ghost t = v@.skip(from as int);
    if p.len() > v.len() - from {
        assert forall|j: int| !matches_at(t, p@, j) by {}
        return None;
    }
    let last = v.len() - p.len();
    let mut i = from;
    while i <= last
        invariant
            from <= i <= last + 1,
            last + p.len() == v.len(),
            t == v@.skip(from as int),
            forall|j: int| 0 <= j < i - from ==> !matches_at(t, p@, j),
        decreases last + 1 - i,
    {
        let mut k: usize = 0;
        while k < p.len() && v[i + k] == p[k]
            invariant
                k <= p.len(),
                i + p.len() <= v.len(),
                forall|m: int| 0 <= m < k ==> v@[i + m] == p@[m],
            decreases p.len() - k,
        {
            k += 1;
        }
        if k == p.len() {
            proof {
                assert(t.subrange(i - from, i - from + p.len()) =~= p@);
                lemma_first_match_unique(t, p@, i - from);
            }
            return Some(i);
        }
        proof {
            assert(t[i - from + k] != p@[k as int]);
            assert(!matches_at(t, p@, i - from)) by {
                if matches_at(t, p@, i - from) {
                    assert(t.subrange(i - from, i - from + p.len())[k as int] == p@[k as int]);
                }
            }
        }
        i += 1;
    }
    proof {
        assert forall|j: int| !matches_at(t, p@, j) by {
            if 0 <= j && j + p.len() <= t.len() {
                assert(j < i - from);
            }
        }
    }
    None
}

pub fn find_vec(v: &Vec<char>, p: &Vec<char>) -> (r: Option<usize>)
    ensures
        match r {
            Some(i) => find(v@, p@) == Some(i as int),
            None => find(v@, p@) is None && !contains(v@, p@),
        },
{
    assert(v@.skip(0) == v@);
    find_from(v, 0, p)
}

pub fn contains_vec(v: &Vec<char>, p: &Vec<char>) -> (r: bool)
    ensures
        r == contains(v@, p@),
{
    match find_vec(v, p) {
        Some(i) => {
            proof { lemma_find(v@, p@); }
            true
        },
        None => false,
    }
}

pub fn starts_with_vec(v: &Vec<char>, p: &Vec<char>) -> (r: bool)
    ensures
        r == starts_with(v@, p@),
{
    if p.len() > v.len() {
        return false;
    }
    let mut k: usize = 0;
    while k < p.len() && v[k] == p[k]
        invariant
            k <= p.len() <= v.len(),
            forall|m: int| 0 <= m < k ==> v@[m] == p@[m],
        decreases p.len() - k,
    {
        k += 1;
    }
    if k == p.len() {
        assert(v@.subrange(0, p.len() as int) =~= p@);
        true
    } else {
        assert(v@.subrange(0, p.len() as int)[k as int] != p@[k as int]);
        false
    }
}

pub fn split_once_vec(v: &Vec<char>, p: &Vec<char>) -> (r: Option<(Vec<char>, Vec<char>)>)
    ensures
        match r {
            Some((a, b)) => split_once(v@, p@) == Some((a@, b@)),
            None => split_once(v@, p@) is None,
        },
{
    match find_vec(v, p) {
        Some(i) => {
            proof {
                lemma_find(v@, p@);
                assert(first_match(v@, p@, i as int));
                assert(matches_at(v@, p@, i as int));
                assert(i + p@.len() <= v@.len());
            }
            let a = slice(v, 0, i);
            let plen = p.len();
            assert(i + plen <= v.len());
            let b = slice(v, i + plen, v.len());
            assert(a@ == v@.take(i as int));
            assert(b@ == v@.skip(i + p.len()));
            Some((a, b))
        },
        None => None,
    }
}


/// The views of a sequence of character vectors.
pub open spec fn views(v: Seq<Vec<char>>) -> Seq<Seq<char>> {
    v.map_values(|l: Vec<char>| l@)
}

/// `s` without one trailing carriage return.
pub open spec fn strip_cr(s: Seq<char>) -> Seq<char> {
    if s.len() > 0 && s.last() == '\r' {
        s.drop_last()
    } else {
        s
    }
}

/// `str::lines`: the pieces of `s` that end in a line feed (without it, and without a
/// carriage return just before it), then the rest of `s` when it is not empty.
pub open spec fn lines(s: Seq<char>) -> Seq<Seq<char>>
    decreases s.len(),
{
    if s.len() == 0 {
        seq![]
    } else {
        let i = scan(s, CharSet::Char('\n'), true);
        if 0 <= i < s.len() {
            seq![strip_cr(s.take(i))] + lines(s.skip(i + 1))
        } else {
            seq![s]
        }
    }
}

/// `str::split_whitespace`: the maximal runs of non-whitespace characters of `s`, in order.
pub open spec fn words(s: Seq<char>) -> Seq<Seq<char>>
    decreases s.len(),
{
    let a = scan(s, CharSet::Whitespace, false);
    if 0 <= a < s.len() {
        let t = s.skip(a);
        let b = scan(t, CharSet::Whitespace, true);
        if 0 < b <= t.len() {
            seq![t.take(b)] + words(t.skip(b))
        } else {
            seq![t]
        }
    } else {
        seq![]
    }
}

/// `s.split(c).nth(1)`: the text between the first and the second `c` (or the end of `s`).
pub open spec fn second_field(s: Seq<char>, c: char) -> Option<Seq<char>> {
    let i = scan(s, CharSet::Char(c), true);
    if i < s.len() {
        let rest = s.skip(i + 1);
        Some(rest.take(scan(rest, CharSet::Char(c), true)))
    } else {
        None
    }
}

/// `s.split(c).last()`: the text after the last `c`, or all of `s`.
pub open spec fn after_last(s: Seq<char>, c: char) -> Seq<char> {
    s.skip(rscan(s, CharSet::Char(c), true))
}

/// `str::replace`: every occurrence of `from` in `s`, taken left to right without overlap,
/// replaced by `to`.
pub open spec fn replace_all(s: Seq<char>, from: Seq<char>, to: Seq<char>) -> Seq<char>
    decreases s.len(),
{
    if from.len() == 0 {
        s
    } else {
        match find(s, from) {
            Some(i) => if 0 <= i && i + from.len() <= s.len() {
                s.take(i) + to + replace_all(s.skip(i + from.len()), from, to)
            } else {
                s
            },
            None => s,
        }
    }
}

pub fn strip_cr_vec(v: Vec<char>) -> (r: Vec<char>)
    ensures
        r@ == strip_cr(v@),
{
    let mut v = v;
    if v.len() > 0 && v[v.len() - 1] == '\r' {
        v.pop();
    }
    v
}

pub fn lines_vec(v: &Vec<char>) -> (r: Vec<Vec<char>>)
    ensures
        views(r@) == lines(v@),
{
    let mut out: Vec<Vec<char>> = Vec::new();
    let mut start: usize = 0;
    assert(v@.skip(0) == v@);
    assert(views(out@) + lines(v@) == lines(v@));
    while start < v.len()
        invariant
            start <= v.len(),
            lines(v@) == views(out@) + lines(v@.skip(start as int)),
        decreases v.len() - start,
    {
        let ghost t = v@.skip(start as int);
        let i = scan_from(v, start, CharSet::Char('\n'), true);
        let ghost old_out = out@;
        if i == v.len() {
            let line = slice(v, start, i);
            assert(line@ == t);
            out.push(line);
            assert(views(out@) == views(old_out) + seq![t]);
            start = i;
        } else {
            let line = strip_cr_vec(slice(v, start, i));
            assert(t.take(i - start) == v@.subrange(start as int, i as int));
            assert(t.skip(i - start + 1) == v@.skip(i + 1));
            out.push(line);
            assert(views(out@) == views(old_out) + seq![line@]);
            start = i + 1;
        }
    }
    assert(v@.skip(start as int).len() == 0);
    assert(views(out@) + seq![] == views(out@));
    out
}

pub fn words_vec(v: &Vec<char>) -> (r: Vec<Vec<char>>)
    ensures
        views(r@) == words(v@),
{
    let mut out: Vec<Vec<char>> = Vec::new();
    let mut start: usize = 0;
    assert(v@.skip(0) == v@);
    assert(views(out@) + words(v@) == words(v@));
    while start < v.len()
        invariant
            start <= v.len(),
            words(v@) == views(out@) + words(v@.skip(start as int)),
        decreases v.len() - start,
    {
        let ghost s = v@.skip(start as int);
        let a = scan_from(v, start, CharSet::Whitespace, false);
        let ghost old_out = out@;
        if a == v.len() {
            assert(words(s) == Seq::<Seq<char>>::empty());
            start = a;
        } else {
            let ghost t = s.skip(a - start);
            assert(t == v@.skip(a as int));
            let b = scan_from(v, a, CharSet::Whitespace, true);
            proof {
                lemma_scan(t, CharSet::Whitespace, true);
                lemma_scan(s, CharSet::Whitespace, false);
                if b == a {
                    assert(stops_at(s, CharSet::Whitespace, false, a - start));
                    assert(!is_ws(v@[a as int]));
                    assert(t[0] == v@[a as int]);
                }
            }
            let w = slice(v, a, b);
            assert(t.take(b - a) == w@);
            assert(t.skip(b - a) == v@.skip(b as int));
            out.push(w);
            assert(views(out@) == views(old_out) + seq![w@]);
            start = b;
        }
    }
    assert(v@.skip(start as int).len() == 0);
    assert(views(out@) + seq![] == views(out@));
    out
}

pub fn second_field_vec(v: &Vec<char>, c: char) -> (r: Option<Vec<char>>)
    ensures
        match r {
            Some(f) => second_field(v@, c) == Some(f@),
            None => second_field(v@, c) is None,
        },
{
    let i = scan_from(v, 0, CharSet::Char(c), true);
    assert(v@.skip(0) == v@);
    if i == v.len() {
        return None;
    }
    let j = scan_from(v, i + 1, CharSet::Char(c), true);
    let f = slice(v, i + 1, j);
    assert(v@.skip(i + 1).take(j - (i + 1)) == f@);
    Some(f)
}

pub fn after_last_vec(v: &Vec<char>, c: char) -> (r: Vec<char>)
    ensures
        r@ == after_last(v@, c),
{
    let k = rscan_to(v, 0, v.len(), CharSet::Char(c), true);
    proof {
        assert(rstops_at(v@, CharSet::Char(c), true, k as int));
        lemma_rstops_at_unique(v@, CharSet::Char(c), true, k as int);
    }
    slice(v, k, v.len())
}

pub fn replace_vec(v: &Vec<char>, from: &Vec<char>, to: &Vec<char>) -> (r: Vec<char>)
    ensures
        r@ == replace_all(v@, from@, to@),
{
    if from.len() == 0 {
        return clone_vec(v);
    }
    let mut out: Vec<char> = Vec::new();
    let mut start: usize = 0;
    assert(v@.skip(0) == v@);
    assert(out@ + replace_all(v@, from@, to@) == replace_all(v@, from@, to@));
    loop
        invariant
            from.len() > 0,
            start <= v.len(),
            replace_all(v@, from@, to@) == out@ + replace_all(v@.skip(start as int), from@, to@),
        decreases v.len() - start,
    {
        let ghost s = v@.skip(start as int);
        match find_from(v, start, from) {
            None => {
                let rest = slice(v, start, v.len());
                assert(rest@ == s);
                let ghost old_out = out@;
                append_vec(&mut out, &rest);
                return out;
            },
            Some(i) => {
                proof {
                    lemma_find(s, from@);
                    assert(first_match(s, from@, i - start));
                }
                let ghost old_out = out@;
                let head = slice(v, start, i);
                assert(head@ == s.take(i - start));
                append_vec(&mut out, &head);
                append_vec(&mut out, to);
                assert(s.skip(i - start + from@.len()) == v@.skip(i + from@.len()));
                assert(out@ == old_out + s.take(i - start) + to@);
                start = i + from.len();
            },
        }
    }
}

/// Appends the characters of `w` to `v`.
pub fn append_vec(v: &mut Vec<char>, w: &Vec<char>)
    ensures
        final(v)@ == old(v)@ + w@,
{
    let mut i: usize = 0;
    while i < w.len()
        invariant
            i <= w.len(),
            v@ == old(v)@ + w@.take(i as int),
        decreases w.len() - i,
    {
        v.push(w[i]);
        assert(w@.take(i + 1) == w@.take(i as int).push(w@[i as int]));
        i += 1;
    }
    assert(w@.take(w.len() as int) == w@);
}


pub open spec fn is_digit(c: char) -> bool {
    48 <= c as u32 <= 57
}

pub open spec fn digit_char(d: int) -> char {
    (d + 48) as char
}

/// The decimal notation of `n`, as `{}` prints an unsigned integer.
pub open spec fn decimal(n: nat) -> Seq<char>
    decreases n,
{
    if n < 10 {
        seq![digit_char(n as int)]
    } else {
        decimal(n / 10).push(digit_char((n % 10) as int))
    }
}

/// The value of a string of decimal digits.
pub open spec fn digits_value(s: Seq<char>) -> nat
    decreases s.len(),
{
    if s.len() == 0 {
        0
    } else {
        digits_value(s.drop_last()) * 10 + (s.last() as u32 - 48) as nat
    }
}

/// The digits of an unsigned number: `s` without one leading `+`.
pub open spec fn unsigned_part(s: Seq<char>) -> Seq<char> {
    if s.len() > 0 && s[0] == '+' {
        s.drop_first()
    } else {
        s
    }
}

pub open spec fn all_digits(d: Seq<char>) -> bool {
    forall|i: int| 0 <= i < d.len() ==> is_digit(d[i])
}

/// `str::parse::<u64>`: an optional `+`, then one or more decimal digits whose value fits.
pub open spec fn parse_u64(s: Seq<char>) -> Option<u64> {
    let d = unsigned_part(s);
    if d.len() > 0 && all_digits(d) && digits_value(d) <= u64::MAX {
        Some(digits_value(d) as u64)
    } else {
        None
    }
}

fn digit(d: u64) -> (c: char)
    requires
        d < 10,
    ensures
        c == digit_char(d as int),
{
    let b: u8 = 48 + d as u8;
    b as char
}

pub fn decimal_vec(n: u64) -> (r: Vec<char>)
    ensures
        r@ == decimal(n as nat),
    decreases n,
{
    if n < 10 {
        let mut r: Vec<char> = Vec::new();
        r.push(digit(n));
        assert(r@ == seq![digit_char(n as int)]);
        r
    } else {
        let mut r = decimal_vec(n / 10);
        r.push(digit(n % 10));
        r
    }
}

proof fn lemma_digits_value_prefix(s: Seq<char>, k: int)
    requires
        0 <= k <= s.len(),
        forall|i: int| 0 <= i < s.len() ==> is_digit(s[i]),
    ensures
        digits_value(s.take(k)) <= digits_value(s),
    decreases s.len(),
{
    if k < s.len() {
        let t = s.drop_last();
        assert(t.take(k) == s.take(k));
        lemma_digits_value_prefix(t, k);
    } else {
        assert(s.take(k) == s);
    }
}

pub fn parse_u64_vec(v: &Vec<char>) -> (r: Option<u64>)
    ensures
        r == parse_u64(v@),
{
    let start: usize = if v.len() > 0 && v[0] == '+' {
        1
    } else {
        0
    };
    let ghost d = v@.skip(start as int);
    assert(d == unsigned_part(v@));
    if start == v.len() {
        return None;
    }
    let mut i = start;
    while i < v.len()
        invariant
            start <= i <= v.len(),
            d == v@.skip(start as int),
            d == unsigned_part(v@),
            d.len() > 0,
            forall|j: int| start <= j < i ==> is_digit(v@[j]),
        decreases v.len() - i,
    {
        let u = v[i] as u32;
        if !(48 <= u && u <= 57) {
            assert(!is_digit(d[i - start]));
            assert(!all_digits(d));
            return None;
        }
        i += 1;
    }
    assert forall|j: int| 0 <= j < d.len() implies is_digit(d[j]) by {
        assert(d[j] == v@[start + j]);
    }
    let mut acc: u64 = 0;
    let mut i = start;
    while i < v.len()
        invariant
            start <= i <= v.len(),
            d == v@.skip(start as int),
            d == unsigned_part(v@),
            d.len() > 0,
            forall|j: int| 0 <= j < d.len() ==> is_digit(d[j]),
            acc == digits_value(d.take(i - start)),
        decreases v.len() - i,
    {
        proof {
            assert(d.take(i - start + 1).drop_last() == d.take(i - start));
            assert(d.take(i - start + 1).last() == v@[i as int]);
            assert(is_digit(d[i - start]));
            assert(digits_value(d.take(i - start + 1)) == acc * 10 + (v@[i as int] as u32 - 48));
        }
        let dv = (v[i] as u32 - 48) as u64;
        let next = match acc.checked_mul(10) {
            Some(m) => m.checked_add(dv),
            None => None,
        };
        match next {
            Some(n) => {
                acc = n;
            },
            None => {
                proof {
                    lemma_digits_value_prefix(d, i - start + 1);
                    assert(digits_value(d) > u64::MAX);
                }
                return None;
            },
        }
        i += 1;
    }
    assert(d.take(d.len() as int) == d);
    Some(acc)
}


/// `a == b` on string slices.
pub fn str_eq(a: &str, b: &str) -> (r: bool)
    ensures
        r == (a@ == b@),
{
    let x = chars_of(a);
    let y = chars_of(b);
    if x.len() != y.len() {
        return false;
    }
    let mut i: usize = 0;
    while i < x.len()
        invariant
            i <= x.len() == y.len(),
            x@ == a@,
            y@ == b@,
            forall|j: int| 0 <= j < i ==> x@[j] == y@[j],
        decreases x.len() - i,
    {
        if x[i] != y[i] {
            assert(x@[i as int] != y@[i as int]);
            return false;
        }
        i += 1;
    }
    assert(x@ =~= y@);
    true
}


/// The first of `ls` that starts with `p` (`lines().find(|l| l.starts_with(p))`).
pub open spec fn first_starting_with(ls: Seq<Seq<char>>, p: Seq<char>) -> Option<Seq<char>>
    decreases ls.len(),
{
    if ls.len() == 0 {
        None
    } else if starts_with(ls[0], p) {
        Some(ls[0])
    } else {
        first_starting_with(ls.drop_first(), p)
    }
}

/// The first of `ls` that contains `p` (`lines().find(|l| l.contains(p))`).
pub open spec fn first_containing(ls: Seq<Seq<char>>, p: Seq<char>) -> Option<Seq<char>>
    decreases ls.len(),
{
    if ls.len() == 0 {
        None
    } else if contains(ls[0], p) {
        Some(ls[0])
    } else {
        first_containing(ls.drop_first(), p)
    }
}

/// How many of `ls` start with `p`.
pub open spec fn count_starting_with(ls: Seq<Seq<char>>, p: Seq<char>) -> nat
    decreases ls.len(),
{
    if ls.len() == 0 {
        0
    } else {
        (if starts_with(ls[0], p) {
            1nat
        } else {
            0nat
        }) + count_starting_with(ls.drop_first(), p)
    }
}

pub open spec fn option_seq(o: Option<Vec<char>>) -> Option<Seq<char>> {
    match o {
        Some(v) => Some(v@),
        None => None,
    }
}

pub fn clone_vec(v: &Vec<char>) -> (r: Vec<char>)
    ensures
        r@ == v@,
{
    slice(v, 0, v.len())
}

/// The first line (of `ls`) that starts with `p`, or that contains `p` when `anywhere`.
pub fn find_line(ls: &Vec<Vec<char>>, p: &Vec<char>, anywhere: bool) -> (r: Option<Vec<char>>)
    ensures
        option_seq(r) == if anywhere {
            first_containing(views(ls@), p@)
        } else {
            first_starting_with(views(ls@), p@)
        },
{
    let ghost all = views(ls@);
    let mut i: usize = 0;
    assert(all.skip(0) == all);
    while i < ls.len()
        invariant
            i <= ls.len(),
            all == views(ls@),
            anywhere ==> first_containing(all, p@) == first_containing(all.skip(i as int), p@),
            !anywhere ==> first_starting_with(all, p@) == first_starting_with(
                all.skip(i as int),
                p@,
            ),
        decreases ls.len() - i,
    {
        assert(all.skip(i as int)[0] == ls@[i as int]@);
        assert(all.skip(i as int).drop_first() == all.skip(i + 1));
        let hit = if anywhere {
            contains_vec(&ls[i], p)
        } else {
            starts_with_vec(&ls[i], p)
        };
        if hit {
            return Some(clone_vec(&ls[i]));
        }
        i += 1;
    }
    None
}

/// How many lines of `ls` start with `p`.
pub fn count_lines_starting_with(ls: &Vec<Vec<char>>, p: &Vec<char>) -> (r: usize)
    ensures
        r == count_starting_with(views(ls@), p@),
{
    let ghost all = views(ls@);
    let mut i: usize = ls.len();
    let mut n: usize = 0;
    assert(all.skip(ls.len() as int).len() == 0);
    while i > 0
        invariant
            i <= ls.len(),
            all == views(ls@),
            n == count_starting_with(all.skip(i as int), p@),
            n <= ls.len() - i,
        decreases i,
    {
        i -= 1;
        assert(all.skip(i as int)[0] == ls@[i as int]@);
        assert(all.skip(i as int).drop_first() == all.skip(i + 1));
        if starts_with_vec(&ls[i], p) {
            n += 1;
        }
    }
    assert(all.skip(0) == all);
    n
}


/// `parts` joined with `sep` between each two (`[..].join(sep)`).
pub open spec fn join(parts: Seq<Seq<char>>, sep: Seq<char>) -> Seq<char>
    decreases parts.len(),
{
    if parts.len() == 0 {
        seq![]
    } else if parts.len() == 1 {
        parts[0]
    } else {
        join(parts.drop_last(), sep) + sep + parts.last()
    }
}

pub fn join_vec(parts: &Vec<Vec<char>>, sep: &Vec<char>) -> (r: Vec<char>)
    ensures
        r@ == join(views(parts@), sep@),
{
    let ghost all = views(parts@);
    let mut r: Vec<char> = Vec::new();
    let mut i: usize = 0;
    assert(all.take(0) =~= Seq::<Seq<char>>::empty());
    while i < parts.len()
        invariant
            i <= parts.len(),
            all == views(parts@),
            r@ == join(all.take(i as int), sep@),
        decreases parts.len() - i,
    {
        assert(all.take(i + 1).drop_last() == all.take(i as int));
        assert(all.take(i + 1).last() == parts@[i as int]@);
        if i > 0 {
            append_vec(&mut r, sep);
        } else {
            assert(all.take(1) == seq![parts@[0]@]);
        }
        append_vec(&mut r, &parts[i]);
        i += 1;
    }
    assert(all.take(parts.len() as int) == all);
    r
}

/// Text that ends with a line break splits into lines independently of what follows it:
/// the lines of `a + b` are those of `a`, then those of `b`.
#[verifier::rlimit(30)]
pub proof fn law_lines_of_concatenation(a: Seq<char>, b: Seq<char>)
    requires
        a.len() > 0,
        a.last() == '\n',
    ensures
        lines(a + b) == lines(a) + lines(b),
    decreases a.len(),
{
    let s = a + b;
    let set = CharSet::Char('\n');
    lemma_scan(a, set, true);
    let k = scan(a, set, true);
    assert(k < a.len()) by {
        if k == a.len() {
            assert(set.has(a[a.len() - 1]));
        }
    }
    assert(stops_at(s, set, true, k)) by {
        assert(s[k] == a[k]);
        assert forall|j: int| 0 <= j < k implies set.has(s[j]) != true by {
            assert(s[j] == a[j]);
        }
    }
    lemma_stops_at_unique(s, set, true, k);
    assert(s.take(k) == a.take(k));
    let rest = a.skip(k + 1);
    assert(s.skip(k + 1) == rest + b);
    if rest.len() == 0 {
        assert(rest + b == b);
        assert(lines(a) == seq![strip_cr(a.take(k))] + lines(rest));
        assert(lines(rest) == Seq::<Seq<char>>::empty());
        assert(lines(a) == seq![strip_cr(a.take(k))]);
    } else {
        assert(rest.last() == a.last());
        law_lines_of_concatenation(rest, b);
        assert(lines(s) == seq![strip_cr(a.take(k))] + (lines(rest) + lines(b)));
    }
}

/// Counting the lines that start with a prefix adds up over a concatenation of lists of lines.
pub proof fn law_count_starting_with_append(l1: Seq<Seq<char>>, l2: Seq<Seq<char>>, p: Seq<char>)
    ensures
        count_starting_with(l1 + l2, p) == count_starting_with(l1, p) + count_starting_with(l2, p),
    decreases l1.len(),
{
    if l1.len() == 0 {
        assert(l1 + l2 == l2);
    } else {
        assert((l1 + l2).drop_first() == l1.drop_first() + l2);
        assert((l1 + l2)[0] == l1[0]);
        law_count_starting_with_append(l1.drop_first(), l2, p);
    }
}

/// Trimming the characters of a set removes exactly the leading run `a` and the trailing run
/// `b` of such characters around a middle `m` that begins and ends with other characters.
pub proof fn law_trim_set_exact(a: Seq<char>, m: Seq<char>, b: Seq<char>, set: CharSet)
    requires
        forall|i: int| 0 <= i < a.len() ==> set.has(#[trigger] a[i]),
        forall|i: int| 0 <= i < b.len() ==> set.has(#[trigger] b[i]),
        m.len() > 0 ==> !set.has(m[0]) && !set.has(m.last()),
    ensures
        trim_set(a + m + b, set) == m,
{
    let s = a + m + b;
    if m.len() > 0 {
        assert(stops_at(s, set, false, a.len() as int)) by {
            assert(s[a.len() as int] == m[0]);
            assert forall|j: int| 0 <= j < a.len() implies set.has(s[j]) != false by {
                assert(s[j] == a[j]);
            }
        }
        lemma_stops_at_unique(s, set, false, a.len() as int);
        let t = s.skip(a.len() as int);
        assert(t =~= m + b);
        assert(rstops_at(t, set, false, m.len() as int)) by {
            assert(t[m.len() - 1] == m.last());
            assert forall|j: int| m.len() <= j < t.len() implies set.has(t[j]) != false by {
                assert(t[j] == b[j - m.len()]);
            }
        }
        lemma_rstops_at_unique(t, set, false, m.len() as int);
        assert(t.take(m.len() as int) =~= m);
    } else {
        assert(stops_at(s, set, false, s.len() as int)) by {
            assert forall|j: int| 0 <= j < s.len() implies set.has(s[j]) != false by {
                if j < a.len() {
                    assert(s[j] == a[j]);
                } else {
                    assert(s[j] == b[j - a.len()]);
                }
            }
        }
        lemma_stops_at_unique(s, set, false, s.len() as int);
        let t = s.skip(s.len() as int);
        assert(t.len() == 0);
        lemma_rstops_at_unique(t, set, false, 0);
        assert(t.take(0) =~= m);
    }
}

/// The decimal notation of a number is a non-empty run of digits without whitespace, which
/// reads back as the number.
pub proof fn law_decimal_round_trip(n: nat)
    requires
        n <= u64::MAX,
    ensures
        decimal(n).len() > 0,
        all_digits(decimal(n)),
        digits_value(decimal(n)) == n,
        parse_u64(decimal(n)) == Some(n as u64),
        trim(decimal(n)) == decimal(n),
        n > 0 ==> decimal(n)[0] != '0',
        n == 0 ==> decimal(n) == seq!['0'],
    decreases n,
{
    lemma_decimal_digits(n);
    lemma_decimal_no_leading_zero(n);
    let d = decimal(n);
    assert(unsigned_part(d) == d);
    assert(!is_ws(d[0]) && !is_ws(d.last()));
    law_trim_set_exact(seq![], d, seq![], CharSet::Whitespace);
    assert(Seq::<char>::empty() + d + Seq::<char>::empty() =~= d);
}

proof fn lemma_decimal_digits(n: nat)
    ensures
        decimal(n).len() > 0,
        all_digits(decimal(n)),
        digits_value(decimal(n)) == n,
    decreases n,
{
    if n < 10 {
        let d = decimal(n);
        assert(d.drop_last() =~= Seq::<char>::empty());
        assert(d.last() == digit_char(n as int));
        assert(digit_char(n as int) as u32 == n + 48);
        assert(digits_value(d.drop_last()) == 0);
        assert(digits_value(d) == digits_value(d.drop_last()) * 10 + (d.last() as u32 - 48) as nat);
    } else {
        lemma_decimal_digits(n / 10);
        let d = decimal(n);
        assert(d.drop_last() =~= decimal(n / 10));
        assert(d.last() == digit_char((n % 10) as int));
        assert(digit_char((n % 10) as int) as u32 == n % 10 + 48);
        assert(digits_value(d) == digits_value(d.drop_last()) * 10 + (d.last() as u32 - 48) as nat);
        assert forall|i: int| 0 <= i < d.len() implies is_digit(d[i]) by {
            if i < d.len() - 1 {
                assert(d[i] == decimal(n / 10)[i]);
            }
        }
    }
}

/// `str::lines` on one line without a line feed, with or without one line feed after it.
pub proof fn law_lines_of_one_line(s: Seq<char>)
    requires
        forall|i: int| 0 <= i < s.len() ==> s[i] != '\n',
    ensures
        s.len() > 0 ==> lines(s) == seq![s],
        lines(s.push('\n')) == seq![strip_cr(s)],
{
    let set = CharSet::Char('\n');
    if s.len() > 0 {
        assert(stops_at(s, set, true, s.len() as int));
        lemma_stops_at_unique(s, set, true, s.len() as int);
        assert(s.take(s.len() as int) =~= s);
    }
    let t = s.push('\n');
    assert(stops_at(t, set, true, s.len() as int)) by {
        assert forall|j: int| 0 <= j < s.len() implies set.has(t[j]) != true by {
            assert(t[j] == s[j]);
        }
    }
    lemma_stops_at_unique(t, set, true, s.len() as int);
    assert(t.take(s.len() as int) =~= s);
    assert(t.skip(s.len() + 1int) =~= Seq::<char>::empty());
    assert(lines(t.skip(s.len() + 1int)) == Seq::<Seq<char>>::empty());
    assert(seq![strip_cr(s)] + Seq::<Seq<char>>::empty() =~= seq![strip_cr(s)]);
}

/// The first line that starts with a prefix is found past lines that do not.
pub proof fn law_first_starting_with_skips(l1: Seq<Seq<char>>, l2: Seq<Seq<char>>, p: Seq<char>)
    requires
        forall|i: int| 0 <= i < l1.len() ==> !starts_with(#[trigger] l1[i], p),
    ensures
        first_starting_with(l1 + l2, p) == first_starting_with(l2, p),
        l2.len() > 0 && starts_with(l2[0], p) ==> first_starting_with(l1 + l2, p) == Some(l2[0]),
    decreases l1.len(),
{
    if l1.len() == 0 {
        assert(l1 + l2 =~= l2);
    } else {
        assert((l1 + l2)[0] == l1[0]);
        assert(!starts_with(l1[0], p));
        assert((l1 + l2).drop_first() =~= l1.drop_first() + l2);
        assert forall|i: int| 0 <= i < l1.drop_first().len() implies !starts_with(
            #[trigger] l1.drop_first()[i],
            p,
        ) by {
            assert(l1.drop_first()[i] == l1[i + 1]);
        }
        law_first_starting_with_skips(l1.drop_first(), l2, p);
    }
}

/// The second field of `key + v` split at `c`, where `key` ends with its only `c` and `v`
/// holds none, is `v`.
pub proof fn law_second_field_after_key(key: Seq<char>, v: Seq<char>, c: char)
    requires
        key.len() > 0,
        key.last() == c,
        forall|i: int| 0 <= i < key.len() - 1 ==> key[i] != c,
        forall|i: int| 0 <= i < v.len() ==> v[i] != c,
    ensures
        second_field(key + v, c) == Some(v),
{
    let s = key + v;
    let set = CharSet::Char(c);
    let k = key.len() - 1;
    assert(stops_at(s, set, true, k)) by {
        assert(s[k] == key[k]);
        assert forall|j: int| 0 <= j < k implies set.has(s[j]) != true by {
            assert(s[j] == key[j]);
        }
    }
    lemma_stops_at_unique(s, set, true, k);
    let rest = s.skip(k + 1);
    assert(rest =~= v);
    assert(stops_at(rest, set, true, v.len() as int));
    lemma_stops_at_unique(rest, set, true, v.len() as int);
    assert(rest.take(v.len() as int) =~= v);
}

/// In text whose lines before a `key` line do not start with `p` (a prefix of `key`), the first
/// line that starts with `p` is the `key` line, and the field after the `c` that ends `key`
/// is the rest of that line.
#[verifier::rlimit(30)]
pub proof fn law_first_keyed_line(
    head: Seq<char>,
    key: Seq<char>,
    value: Seq<char>,
    rest: Seq<char>,
    c: char,
    p: Seq<char>,
)
    requires
        head.len() == 0 || head.last() == '\n',
        forall|i: int| 0 <= i < lines(head).len() ==> !starts_with(#[trigger] lines(head)[i], p),
        p.len() <= key.len(),
        key.take(p.len() as int) == p,
        key.len() > 0,
        key.last() == c,
        c != '\n',
        forall|i: int| 0 <= i < key.len() - 1 ==> key[i] != c && key[i] != '\n',
        forall|i: int| 0 <= i < value.len() ==> value[i] != c && value[i] != '\n',
        value.len() > 0,
        value.last() != '\r',
    ensures
        first_starting_with(lines(head + key + value + seq!['\n'] + rest), p) == Some(key + value),
        second_field(key + value, c) == Some(value),
{
    let body = key + value;
    let a = body.push('\n');
    let contents = head + key + value + seq!['\n'] + rest;
    assert(contents =~= head + (a + rest));
    assert forall|i: int| 0 <= i < body.len() implies body[i] != '\n' by {
        if i >= key.len() {
            assert(body[i] == value[i - key.len()]);
        } else {
            assert(body[i] == key[i]);
        }
    }
    law_lines_of_one_line(body);
    assert(body.last() == value.last());
    assert(strip_cr(body) == body);
    law_lines_of_concatenation(a, rest);
    if head.len() > 0 {
        law_lines_of_concatenation(head, a + rest);
    } else {
        assert(head + (a + rest) =~= a + rest);
        assert(lines(head) + lines(a + rest) =~= lines(a + rest));
    }
    assert(lines(contents) == lines(head) + (seq![body] + lines(rest)));
    assert(body.subrange(0, p.len() as int) =~= key.take(p.len() as int));
    assert(starts_with(body, p));
    law_first_starting_with_skips(lines(head), seq![body] + lines(rest), p);
    assert((seq![body] + lines(rest))[0] == body);
    law_second_field_after_key(key, value, c);
}

/// Text made only of whitespace has no words.
pub proof fn law_words_blank(a: Seq<char>)
    requires
        forall|i: int| 0 <= i < a.len() ==> is_ws(#[trigger] a[i]),
    ensures
        words(a) == Seq::<Seq<char>>::empty(),
{
    assert(stops_at(a, CharSet::Whitespace, false, a.len() as int));
    lemma_stops_at_unique(a, CharSet::Whitespace, false, a.len() as int);
}

/// Leading whitespace changes nothing to the words.
proof fn lemma_words_after_blank(a: Seq<char>, y: Seq<char>)
    requires
        forall|i: int| 0 <= i < a.len() ==> is_ws(#[trigger] a[i]),
    ensures
        words(a + y) == words(y),
{
    let set = CharSet::Whitespace;
    let s = a + y;
    lemma_scan(y, set, false);
    let k = scan(y, set, false);
    assert(stops_at(s, set, false, a.len() + k)) by {
        if a.len() + k < s.len() {
            assert(s[a.len() + k] == y[k]);
        }
        assert forall|j: int| 0 <= j < a.len() + k implies set.has(s[j]) != false by {
            if j < a.len() {
                assert(s[j] == a[j]);
            } else {
                assert(s[j] == y[j - a.len()]);
            }
        }
    }
    lemma_stops_at_unique(s, set, false, a.len() + k);
    assert(s.skip(a.len() + k) =~= y.skip(k));
}

/// Words split independently on both sides of whitespace: where `x` is empty or ends with
/// whitespace, the words of `x + y` are those of `x`, then those of `y`.
#[verifier::rlimit(30)]
pub proof fn law_words_append(x: Seq<char>, y: Seq<char>)
    requires
        x.len() == 0 || is_ws(x.last()),
    ensures
        words(x + y) == words(x) + words(y),
    decreases x.len(),
{
    let set = CharSet::Whitespace;
    lemma_scan(x, set, false);
    let a = scan(x, set, false);
    if a >= x.len() {
        assert forall|i: int| 0 <= i < x.len() implies is_ws(#[trigger] x[i]) by {
            assert(set.has(x[i]));
        }
        lemma_words_after_blank(x, y);
        law_words_blank(x);
        assert(words(x) + words(y) =~= words(y));
    } else {
        let s = x + y;
        assert(stops_at(s, set, false, a)) by {
            assert(s[a] == x[a]);
            assert forall|j: int| 0 <= j < a implies set.has(s[j]) != false by {
                assert(s[j] == x[j]);
            }
        }
        lemma_stops_at_unique(s, set, false, a);
        let tx = x.skip(a);
        let t = s.skip(a);
        assert(t =~= tx + y);
        lemma_scan(tx, set, true);
        let b = scan(tx, set, true);
        assert(b < tx.len()) by {
            if b == tx.len() {
                assert(tx[tx.len() - 1] == x.last());
            }
        }
        assert(b > 0) by {
            assert(tx[0] == x[a]);
        }
        assert(stops_at(t, set, true, b)) by {
            assert(t[b] == tx[b]);
            assert forall|j: int| 0 <= j < b implies set.has(t[j]) != true by {
                assert(t[j] == tx[j]);
            }
        }
        lemma_stops_at_unique(t, set, true, b);
        assert(t.take(b) =~= tx.take(b));
        let rx = tx.skip(b);
        assert(t.skip(b) =~= rx + y);
        assert(rx.len() > 0 && rx.last() == x.last());
        law_words_append(rx, y);
        assert(seq![tx.take(b)] + (words(rx) + words(y)) =~= seq![tx.take(b)] + words(rx)
            + words(y));
    }
}

/// A word between leading whitespace and whitespace (or the end) is the first word.
pub proof fn law_words_first(a: Seq<char>, w: Seq<char>, b: Seq<char>)
    requires
        forall|i: int| 0 <= i < a.len() ==> is_ws(#[trigger] a[i]),
        w.len() > 0,
        forall|i: int| 0 <= i < w.len() ==> !is_ws(#[trigger] w[i]),
        b.len() == 0 || is_ws(b[0]),
    ensures
        words(a + w + b) == seq![w] + words(b),
{
    let set = CharSet::Whitespace;
    assert(a + w + b =~= a + (w + b));
    lemma_words_after_blank(a, w + b);
    let s = w + b;
    assert(stops_at(s, set, false, 0)) by {
        assert(s[0] == w[0]);
    }
    lemma_stops_at_unique(s, set, false, 0);
    assert(s.skip(0) =~= s);
    assert(stops_at(s, set, true, w.len() as int)) by {
        if b.len() > 0 {
            assert(s[w.len() as int] == b[0]);
        }
        assert forall|j: int| 0 <= j < w.len() implies set.has(s[j]) != true by {
            assert(s[j] == w[j]);
        }
    }
    lemma_stops_at_unique(s, set, true, w.len() as int);
    assert(s.take(w.len() as int) =~= w);
    assert(s.skip(w.len() as int) =~= b);
}

/// The first line that contains a pattern is found past lines that do not.
pub proof fn law_first_containing_skips(l1: Seq<Seq<char>>, l2: Seq<Seq<char>>, p: Seq<char>)
    requires
        forall|i: int| 0 <= i < l1.len() ==> !contains(#[trigger] l1[i], p),
    ensures
        first_containing(l1 + l2, p) == first_containing(l2, p),
    decreases l1.len(),
{
    if l1.len() == 0 {
        assert(l1 + l2 =~= l2);
    } else {
        assert((l1 + l2)[0] == l1[0]);
        assert(!contains(l1[0], p));
        assert((l1 + l2).drop_first() =~= l1.drop_first() + l2);
        assert forall|i: int| 0 <= i < l1.drop_first().len() implies !contains(
            #[trigger] l1.drop_first()[i],
            p,
        ) by {
            assert(l1.drop_first()[i] == l1[i + 1]);
        }
        law_first_containing_skips(l1.drop_first(), l2, p);
    }
}

/// The first line that contains `p` in text whose lines before it do not.
pub proof fn law_first_line_containing(head: Seq<char>, line: Seq<char>, rest: Seq<char>, p: Seq<char>)
    requires
        head.len() == 0 || head.last() == '\n',
        forall|i: int| 0 <= i < lines(head).len() ==> !contains(#[trigger] lines(head)[i], p),
        line.len() > 0,
        line.last() != '\r',
        forall|i: int| 0 <= i < line.len() ==> line[i] != '\n',
        contains(line, p),
    ensures
        first_containing(lines(head + line + seq!['\n'] + rest), p) == Some(line),
{
    let a = line.push('\n');
    law_lines_of_one_line(line);
    assert(strip_cr(line) == line);
    law_lines_of_concatenation(a, rest);
    let contents = head + line + seq!['\n'] + rest;
    assert(contents =~= head + (a + rest));
    if head.len() > 0 {
        law_lines_of_concatenation(head, a + rest);
    } else {
        assert(head + (a + rest) =~= a + rest);
        assert(lines(head) + lines(a + rest) =~= lines(a + rest));
    }
    assert(lines(contents) == lines(head) + (seq![line] + lines(rest)));
    law_first_containing_skips(lines(head), seq![line] + lines(rest), p);
    assert((seq![line] + lines(rest))[0] == line);
}

/// The text after the last `c` is what follows a `c` when no `c` comes after it; text without
/// any `c` is kept whole.
pub proof fn law_after_last(before: Seq<char>, after: Seq<char>, c: char)
    requires
        forall|i: int| 0 <= i < after.len() ==> after[i] != c,
    ensures
        after_last(before + seq![c] + after, c) == after,
        (forall|i: int| 0 <= i < before.len() ==> before[i] != c) ==> after_last(before, c)
            == before,
{
    let set = CharSet::Char(c);
    let s = before + seq![c] + after;
    let k = before.len() + 1int;
    assert(rstops_at(s, set, true, k)) by {
        assert(s[k - 1] == c);
        assert forall|j: int| k <= j < s.len() implies set.has(s[j]) != true by {
            assert(s[j] == after[j - k]);
        }
    }
    lemma_rstops_at_unique(s, set, true, k);
    assert(s.skip(k) =~= after);
    if forall|i: int| 0 <= i < before.len() ==> before[i] != c {
        assert(rstops_at(before, set, true, 0));
        lemma_rstops_at_unique(before, set, true, 0);
        assert(before.skip(0) =~= before);
    }
}

/// Text splits at the first occurrence of a pattern: where `a` followed by all of `p` but its
/// last character holds no `p`, `a + p + b` splits into `a` and `b`.
#[verifier::rlimit(30)]
pub proof fn law_split_once_at_first(a: Seq<char>, p: Seq<char>, b: Seq<char>)
    requires
        p.len() > 0,
        !contains(a + p.drop_last(), p),
    ensures
        split_once(a + p + b, p) == Some((a, b)),
        find(a + p + b, p) == Some(a.len() as int),
        contains(a + p + b, p),
{
    let s = a + p + b;
    let k = a.len() as int;
    let n = p.len() as int;
    let q = a + p.drop_last();
    assert(s.subrange(k, k + n) =~= p);
    assert forall|j: int| 0 <= j < k implies !matches_at(s, p, j) by {
        if matches_at(s, p, j) {
            assert(s.subrange(j, j + n) =~= q.subrange(j, j + n));
            assert(matches_at(q, p, j));
        }
    }
    assert(first_match(s, p, k));
    lemma_first_match_unique(s, p, k);
    assert(s.take(k) =~= a);
    assert(s.skip(k + n) =~= b);
}

/// Replacing leaves text without the pattern as it is, and replaces the first occurrence
/// then goes on after it.
pub proof fn law_replace_all(a: Seq<char>, from: Seq<char>, to: Seq<char>, b: Seq<char>, t: Seq<char>)
    requires
        from.len() > 0,
        !contains(a + from.drop_last(), from),
    ensures
        replace_all(a + from + b, from, to) == a + to + replace_all(b, from, to),
        !contains(t, from) ==> replace_all(t, from, to) == t,
{
    law_split_once_at_first(a, from, b);
    let s = a + from + b;
    assert(s.take(a.len() as int) =~= a);
    assert(s.skip(a.len() + from.len() as int) =~= b);
    if find(t, from) is Some {
        lemma_find(t, from);
    }
}

/// Reading a number accepts one leading `+` before its digits, and refuses text with a
/// character that is not a digit after it, or with no digit.
pub proof fn law_parse_u64(n: nat, s: Seq<char>, i: int)
    requires
        n <= u64::MAX,
    ensures
        parse_u64(seq!['+'] + decimal(n)) == Some(n as u64),
        parse_u64(Seq::<char>::empty()) is None,
        parse_u64(seq!['+']) is None,
        0 <= i < unsigned_part(s).len() && !is_digit(unsigned_part(s)[i]) ==> parse_u64(s) is None,
{
    law_decimal_round_trip(n);
    assert((seq!['+'] + decimal(n)).drop_first() =~= decimal(n));
    assert(seq!['+'].drop_first() =~= Seq::<char>::empty());
}

proof fn lemma_decimal_no_leading_zero(n: nat)
    ensures
        n > 0 ==> decimal(n)[0] != '0',
        n == 0 ==> decimal(n) == seq!['0'],
    decreases n,
{
    if n < 10 {
        assert(digit_char(n as int) as u32 == n + 48);
        if n == 0 {
            assert(decimal(n) =~= seq!['0']);
        }
    } else {
        lemma_decimal_no_leading_zero(n / 10);
        lemma_decimal_digits(n / 10);
        assert(decimal(n)[0] == decimal(n / 10)[0]);
    }
}

/// Joining puts the separator between consecutive parts only.
pub proof fn law_join(a: Seq<char>, b: Seq<char>, parts: Seq<Seq<char>>, sep: Seq<char>)
    ensures
        join(Seq::<Seq<char>>::empty(), sep) == Seq::<char>::empty(),
        join(seq![a], sep) == a,
        join(seq![a, b], sep) == a + sep + b,
        parts.len() > 0 ==> join(parts.push(b), sep) == join(parts, sep) + sep + b,
{
    assert(seq![a, b].drop_last() =~= seq![a]);
    assert(parts.push(b).drop_last() =~= parts);
}

/// `str::lines` drops the carriage return of a line that ends with CR LF.
pub proof fn law_lines_crlf(s: Seq<char>)
    requires
        forall|i: int| 0 <= i < s.len() ==> s[i] != '\n',
    ensures
        lines(s.push('\r').push('\n')) == seq![s],
{
    let t = s.push('\r');
    assert forall|i: int| 0 <= i < t.len() implies t[i] != '\n' by {
        if i < s.len() {
            assert(t[i] == s[i]);
        }
    }
    law_lines_of_one_line(t);
    assert(t.drop_last() =~= s);
}

} // verus!
