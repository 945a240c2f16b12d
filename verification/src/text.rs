//! Character-level text handling shared by the `.osu` parsers: whitespace
//! trimming, splitting, line breaking and integer reading and writing, each
//! stated over `Seq<char>`.
use vstd::prelude::*;

verus! {

/// Rust's `char::is_whitespace`: the Unicode `White_Space` property.
pub open spec fn is_ws(c: char) -> bool {
    let u = c as u32;
    ||| 0x9 <= u <= 0xD
    ||| u == 0x20
    ||| u == 0x85
    ||| u == 0xA0
    ||| u == 0x1680
    ||| 0x2000 <= u <= 0x200A
    ||| u == 0x2028
    ||| u == 0x2029
    ||| u == 0x202F
    ||| u == 0x205F
    ||| u == 0x3000
}

pub fn char_is_ws(c: char) -> (r: bool)
    ensures
        r == is_ws(c),
{
    let u = c as u32;
    (0x9 <= u && u <= 0xD) || u == 0x20 || u == 0x85 || u == 0xA0 || u == 0x1680 || (0x2000
        <= u && u <= 0x200A) || u == 0x2028 || u == 0x2029 || u == 0x202F || u == 0x205F || u
        == 0x3000
}

/// Number of whitespace characters at the start of `s`.
pub open spec fn lead_ws(s: Seq<char>) -> nat
    decreases s.len(),
{
    if s.len() > 0 && is_ws(s[0]) {
        1 + lead_ws(s.drop_first())
    } else {
        0
    }
}

/// Number of whitespace characters at the end of `s`.
pub open spec fn trail_ws(s: Seq<char>) -> nat
    decreases s.len(),
{
    if s.len() > 0 && is_ws(s.last()) {
        1 + trail_ws(s.drop_last())
    } else {
        0
    }
}

/// `str::trim_start`.
pub open spec fn trim_start(s: Seq<char>) -> Seq<char> {
    s.skip(lead_ws(s) as int)
}

/// `str::trim_end`.
pub open spec fn trim_end(s: Seq<char>) -> Seq<char> {
    s.take(s.len() - trail_ws(s))
}

/// `str::trim`.
pub open spec fn trim(s: Seq<char>) -> Seq<char> {
    trim_end(trim_start(s))
}

pub proof fn lemma_lead_ws_bound(s: Seq<char>)
    ensures
        lead_ws(s) <= s.len(),
        forall|i: int| 0 <= i < lead_ws(s) ==> is_ws(#[trigger] s[i]),
        lead_ws(s) < s.len() ==> !is_ws(s[lead_ws(s) as int]),
    decreases s.len(),
{
    if s.len() > 0 && is_ws(s[0]) {
        lemma_lead_ws_bound(s.drop_first());
        assert forall|i: int| 0 <= i < lead_ws(s) implies is_ws(#[trigger] s[i]) by {
            if i > 0 {
                assert(s[i] == s.drop_first()[i - 1]);
            }
        }
    }
}

pub proof fn lemma_trail_ws_bound(s: Seq<char>)
    ensures
        trail_ws(s) <= s.len(),
        forall|i: int| s.len() - trail_ws(s) <= i < s.len() ==> is_ws(#[trigger] s[i]),
        trail_ws(s) < s.len() ==> !is_ws(s[s.len() - trail_ws(s) - 1]),
    decreases s.len(),
{
    if s.len() > 0 && is_ws(s.last()) {
        lemma_trail_ws_bound(s.drop_last());
        assert forall|i: int| s.len() - trail_ws(s) <= i < s.len() implies is_ws(#[trigger] s[i]) by {
            if i < s.len() - 1 {
                assert(s[i] == s.drop_last()[i]);
            }
        }
    }
}

/// `lead_ws` is the length of the longest all-whitespace prefix.
pub proof fn lemma_lead_ws_char(s: Seq<char>, k: int)
    requires
        0 <= k <= s.len(),
        forall|i: int| 0 <= i < k ==> is_ws(#[trigger] s[i]),
        k < s.len() ==> !is_ws(s[k]),
    ensures
        lead_ws(s) == k,
    decreases s.len(),
{
    if k > 0 {
        assert(is_ws(s[0]));
        assert forall|i: int| 0 <= i < k - 1 implies is_ws(#[trigger] s.drop_first()[i]) by {
            assert(s.drop_first()[i] == s[i + 1]);
        }
        if k < s.len() {
            assert(s.drop_first()[k - 1] == s[k]);
        }
        lemma_lead_ws_char(s.drop_first(), k - 1);
    }
}

/// `trail_ws` is the length of the longest all-whitespace suffix.
pub proof fn lemma_trail_ws_char(s: Seq<char>, k: int)
    requires
        0 <= k <= s.len(),
        forall|i: int| s.len() - k <= i < s.len() ==> is_ws(#[trigger] s[i]),
        k < s.len() ==> !is_ws(s[s.len() - k - 1]),
    ensures
        trail_ws(s) == k,
    decreases s.len(),
{
    if k > 0 {
        assert(is_ws(s[s.len() - 1]));
        let t = s.drop_last();
        assert forall|i: int| t.len() - (k - 1) <= i < t.len() implies is_ws(#[trigger] t[i]) by {
            assert(t[i] == s[i]);
        }
        if k < s.len() {
            assert(t[t.len() - (k - 1) - 1] == s[s.len() - k - 1]);
        }
        lemma_trail_ws_char(t, k - 1);
    }
}

/// Copies `v[a..b]`.
pub fn sub_vec(v: &Vec<char>, a: usize, b: usize) -> (r: Vec<char>)
    requires
        a <= b <= v.len(),
    ensures
        r@ == v@.subrange(a as int, b as int),
{
    let mut r: Vec<char> = Vec::new();
    let mut i = a;
    while i < b
        invariant
            a <= i <= b <= v.len(),
            r@ == v@.subrange(a as int, i as int),
        decreases b - i,
    {
        r.push(v[i]);
        i += 1;
    }
    r
}

/// The bounds of `trim(v[a..b])` inside `v`.
pub fn trim_bounds(v: &Vec<char>, a: usize, b: usize) -> (r: (usize, usize))
    requires
        a <= b <= v.len(),
    ensures
        a <= r.0 <= r.1 <= b,
        v@.subrange(r.0 as int, r.1 as int) == trim(v@.subrange(a as int, b as int)),
{
    let ghost s = v@.subrange(a as int, b as int);
    let mut i = a;
    while i < b && char_is_ws(v[i])
        invariant
            a <= i <= b <= v.len(),
            forall|k: int| a <= k < i ==> is_ws(#[trigger] v@[k]),
        decreases b - i,
    {
        i += 1;
    }
    proof {
        assert forall|k: int| 0 <= k < i - a implies is_ws(#[trigger] s[k]) by {
            assert(s[k] == v@[k + a]);
        }
        lemma_lead_ws_char(s, i - a);
    }
    let ghost t = trim_start(s);
    assert(t == v@.subrange(i as int, b as int));
    let mut j = b;
    while j > i && char_is_ws(v[j - 1])
        invariant
            i <= j <= b <= v.len(),
            forall|k: int| j <= k < b ==> is_ws(#[trigger] v@[k]),
        decreases j - i,
    {
        j -= 1;
    }
    proof {
        assert forall|k: int| t.len() - (b - j) <= k < t.len() implies is_ws(#[trigger] t[k]) by {
            assert(t[k] == v@[k + i]);
        }
        if b - j < t.len() {
            assert(t[t.len() - (b - j) - 1] == v@[j - 1]);
        }
        lemma_trail_ws_char(t, b - j);
        assert(trim(s) =~= v@.subrange(i as int, j as int));
    }
    (i, j)
}

/// Copies `trim(v)`.
pub fn trim_vec(v: &Vec<char>) -> (r: Vec<char>)
    ensures
        r@ == trim(v@),
{
    let (a, b) = trim_bounds(v, 0, v.len());
    assert(v@.subrange(0, v@.len() as int) =~= v@);
    sub_vec(v, a, b)
}


/// Index of the first `c` in `s`.
pub open spec fn first_index(s: Seq<char>, c: char) -> Option<int>
    decreases s.len(),
{
    if s.len() == 0 {
        None
    } else if s[0] == c {
        Some(0)
    } else {
        match first_index(s.drop_first(), c) {
            Some(i) => Some(i + 1),
            None => None,
        }
    }
}

pub proof fn lemma_first_index(s: Seq<char>, c: char, k: int)
    requires
        0 <= k <= s.len(),
        forall|i: int| 0 <= i < k ==> #[trigger] s[i] != c,
    ensures
        k == s.len() ==> first_index(s, c) is None,
        k < s.len() && s[k] == c ==> first_index(s, c) == Some(k),
    decreases s.len(),
{
    if k > 0 {
        assert forall|i: int| 0 <= i < k - 1 implies #[trigger] s.drop_first()[i] != c by {
            assert(s.drop_first()[i] == s[i + 1]);
        }
        if k < s.len() {
            assert(s.drop_first()[k - 1] == s[k]);
        }
        lemma_first_index(s.drop_first(), c, k - 1);
    }
}

pub proof fn lemma_first_index_props(s: Seq<char>, c: char)
    ensures
        first_index(s, c) matches Some(k) ==> 0 <= k < s.len() && s[k] == c && forall|i: int|
            0 <= i < k ==> #[trigger] s[i] != c,
        first_index(s, c) is None ==> forall|i: int| 0 <= i < s.len() ==> #[trigger] s[i] != c,
    decreases s.len(),
{
    if s.len() > 0 && s[0] != c {
        lemma_first_index_props(s.drop_first(), c);
        assert forall|i: int| 0 < i < s.len() implies #[trigger] s[i] == s.drop_first()[i - 1] by {}
    }
}

/// `str::split(c)`: the pieces between occurrences of `c`; at least one piece.
pub open spec fn split(s: Seq<char>, c: char) -> Seq<Seq<char>>
    decreases s.len(),
{
    match first_index(s, c) {
        None => seq![s],
        Some(k) => {
            if 0 <= k < s.len() {
                seq![s.take(k)] + split(s.skip(k + 1), c)
            } else {
                seq![s]
            }
        },
    }
}

/// Removes one `\r` at the end, if there is one.
pub open spec fn strip_cr(s: Seq<char>) -> Seq<char> {
    if s.len() > 0 && s.last() == '\r' {
        s.drop_last()
    } else {
        s
    }
}

/// `str::lines`: pieces ended by `\n` (a `\r` just before it is dropped); no piece
/// after a final `\n`.
pub open spec fn lines(s: Seq<char>) -> Seq<Seq<char>>
    decreases s.len(),
{
    if s.len() == 0 {
        seq![]
    } else {
        match first_index(s, '\n') {
            None => seq![s],
            Some(k) => {
                if 0 <= k < s.len() {
                    seq![strip_cr(s.take(k))] + lines(s.skip(k + 1))
                } else {
                    seq![s]
                }
            },
        }
    }
}

/// The views of a sequence of character vectors.
pub open spec fn views(v: Seq<Vec<char>>) -> Seq<Seq<char>> {
    v.map_values(|x: Vec<char>| x@)
}

/// `str::split(c)` on a character vector.
pub fn split_vec(v: &Vec<char>, c: char) -> (r: Vec<Vec<char>>)
    ensures
        views(r@) == split(v@, c),
        r.len() >= 1,
{
    let mut out: Vec<Vec<char>> = Vec::new();
    let mut start: usize = 0;
    let mut i: usize = 0;
    assert(v@.skip(0) =~= v@);
    assert(views(out@) + split(v@, c) =~= split(v@, c));
    while i < v.len()
        invariant
            start <= i <= v.len(),
            forall|k: int| start <= k < i ==> #[trigger] v@[k] != c,
            split(v@, c) == views(out@) + split(v@.skip(start as int), c),
        decreases v.len() - i,
    {
        if v[i] == c {
            let piece = sub_vec(v, start, i);
            proof {
                let t = v@.skip(start as int);
                assert forall|k: int| 0 <= k < i - start implies #[trigger] t[k] != c by {
                    assert(t[k] == v@[k + start]);
                }
                lemma_first_index(t, c, i - start);
                assert(t.take(i - start) =~= piece@);
                assert(t.skip(i - start + 1) =~= v@.skip(i + 1));
                assert(views(out@.push(piece)) =~= views(out@) + seq![piece@]);
            }
            out.push(piece);
            start = i + 1;
        }
        i += 1;
    }
    let piece = sub_vec(v, start, v.len());
    proof {
        let t = v@.skip(start as int);
        assert forall|k: int| 0 <= k < t.len() implies #[trigger] t[k] != c by {
            assert(t[k] == v@[k + start]);
        }
        lemma_first_index(t, c, t.len() as int);
        assert(t =~= piece@);
        assert(views(out@.push(piece)) =~= views(out@) + seq![piece@]);
    }
    out.push(piece);
    out
}

/// `str::lines` on a character vector.
pub fn lines_vec(v: &Vec<char>) -> (r: Vec<Vec<char>>)
    ensures
        views(r@) == lines(v@),
{
    let mut out: Vec<Vec<char>> = Vec::new();
    let mut start: usize = 0;
    let mut i: usize = 0;
    assert(v@.skip(0) =~= v@);
    assert(views(out@) + lines(v@) =~= lines(v@));
    while i < v.len()
        invariant
            start <= i <= v.len(),
            forall|k: int| start <= k < i ==> #[trigger] v@[k] != '\n',
            lines(v@) == views(out@) + lines(v@.skip(start as int)),
        decreases v.len() - i,
    {
        if v[i] == '\n' {
            let end = if i > start && v[i - 1] == '\r' {
                i - 1
            } else {
                i
            };
            let piece = sub_vec(v, start, end);
            proof {
                let t = v@.skip(start as int);
                assert forall|k: int| 0 <= k < i - start implies #[trigger] t[k] != '\n' by {
                    assert(t[k] == v@[k + start]);
                }
                lemma_first_index(t, '\n', i - start);
                assert(strip_cr(t.take(i - start)) =~= piece@);
                assert(t.skip(i - start + 1) =~= v@.skip(i + 1));
                assert(views(out@.push(piece)) =~= views(out@) + seq![piece@]);
            }
            out.push(piece);
            start = i + 1;
        }
        i += 1;
    }
    if start < v.len() {
        let piece = sub_vec(v, start, v.len());
        proof {
            let t = v@.skip(start as int);
            assert forall|k: int| 0 <= k < t.len() implies #[trigger] t[k] != '\n' by {
                assert(t[k] == v@[k + start]);
            }
            lemma_first_index(t, '\n', t.len() as int);
            assert(t =~= piece@);
            assert(views(out@.push(piece)) =~= views(out@) + seq![piece@]);
        }
        out.push(piece);
    } else {
        assert(views(out@) + lines(v@.skip(start as int)) =~= views(out@));
    }
    out
}


/// `p` occurs in `s` at position `i`.
pub open spec fn occurs_at(s: Seq<char>, p: Seq<char>, i: int) -> bool {
    0 <= i && i + p.len() <= s.len() && s.subrange(i, i + p.len()) == p
}

/// `str::find` with a string pattern: the first position where `p` occurs in `s`.
pub open spec fn find(s: Seq<char>, p: Seq<char>) -> Option<int>
    decreases s.len(),
{
    if p.len() > s.len() {
        None
    } else if s.take(p.len() as int) == p {
        Some(0)
    } else if s.len() == 0 {
        None
    } else {
        match find(s.drop_first(), p) {
            Some(i) => Some(i + 1),
            None => None,
        }
    }
}

pub proof fn lemma_find(s: Seq<char>, p: Seq<char>, k: int)
    requires
        0 <= k,
        forall|j: int| 0 <= j < k ==> !#[trigger] occurs_at(s, p, j),
    ensures
        occurs_at(s, p, k) ==> find(s, p) == Some(k),
        k + p.len() > s.len() ==> find(s, p) is None,
    decreases s.len(),
{
    if p.len() > s.len() {
    } else if s.take(p.len() as int) == p {
        if k > 0 {
            assert(s.subrange(0, p.len() as int) =~= s.take(p.len() as int));
            assert(occurs_at(s, p, 0));
        }
    } else if s.len() == 0 {
    } else {
        if k > 0 {
            let t = s.drop_first();
            assert forall|j: int| 0 <= j < k - 1 implies !#[trigger] occurs_at(t, p, j) by {
                if occurs_at(t, p, j) {
                    assert(s.subrange(j + 1, j + 1 + p.len()) =~= t.subrange(j, j + p.len()));
                    assert(occurs_at(s, p, j + 1));
                }
            }
            if occurs_at(s, p, k) {
                assert(s.subrange(k, k + p.len()) =~= t.subrange(k - 1, k - 1 + p.len()));
            }
            lemma_find(t, p, k - 1);
        } else {
            if occurs_at(s, p, 0) {
                assert(s.subrange(0, p.len() as int) =~= s.take(p.len() as int));
            }
        }
    }
}

pub proof fn lemma_find_props(s: Seq<char>, p: Seq<char>)
    ensures
        find(s, p) matches Some(k) ==> occurs_at(s, p, k) && forall|j: int|
            0 <= j < k ==> !#[trigger] occurs_at(s, p, j),
        find(s, p) is None ==> forall|j: int| !#[trigger] occurs_at(s, p, j),
    decreases s.len(),
{
    if p.len() > s.len() {
    } else if s.take(p.len() as int) == p {
        assert(s.subrange(0, p.len() as int) =~= s.take(p.len() as int));
    } else if s.len() == 0 {
        assert(p.len() == 0);
        assert(s.take(0) =~= p);
    } else {
        let t = s.drop_first();
        lemma_find_props(t, p);
        assert forall|j: int| 1 <= j implies #[trigger] occurs_at(s, p, j) == occurs_at(t, p, j - 1) by {
            if j + p.len() <= s.len() {
                assert(s.subrange(j, j + p.len()) =~= t.subrange(j - 1, j - 1 + p.len()));
            }
        }
        assert(!occurs_at(s, p, 0)) by {
            if occurs_at(s, p, 0) {
                assert(s.subrange(0, p.len() as int) =~= s.take(p.len() as int));
            }
        }
    }
}

/// Whether `v[i..]` starts with `p`.
pub fn matches_at(v: &Vec<char>, p: &Vec<char>, i: usize) -> (r: bool)
    requires
        i <= v.len(),
    ensures
        r == occurs_at(v@, p@, i as int),
{
    if p.len() > v.len() - i {
        return false;
    }
    let mut j: usize = 0;
    while j < p.len()
        invariant
            i + p.len() <= v.len(),
            j <= p.len(),
            forall|k: int| 0 <= k < j ==> v@[i + k] == p@[k],
        decreases p.len() - j,
    {
        if v[i + j] != p[j] {
            assert(v@.subrange(i as int, i + p.len())[j as int] != p@[j as int]);
            return false;
        }
        j += 1;
    }
    assert(v@.subrange(i as int, i + p.len()) =~= p@);
    true
}

/// `str::find` on character vectors.
pub fn find_vec(v: &Vec<char>, p: &Vec<char>) -> (r: Option<usize>)
    ensures
        r matches Some(k) ==> find(v@, p@) == Some(k as int),
        r is None ==> find(v@, p@) is None,
{
    if p.len() > v.len() {
        proof {
            lemma_find(v@, p@, 0);
        }
        return None;
    }
    let last = v.len() - p.len();
    let mut i: usize = 0;
    loop
        invariant
            last + p.len() == v.len(),
            i <= last,
            forall|j: int| 0 <= j < i ==> !#[trigger] occurs_at(v@, p@, j),
        decreases last - i,
    {
        if matches_at(v, p, i) {
            proof {
                lemma_find(v@, p@, i as int);
            }
            return Some(i);
        }
        if i == last {
            proof {
                lemma_find(v@, p@, i + 1);
            }
            return None;
        }
        i += 1;
    }
}

pub open spec fn is_digit(c: char) -> bool {
    '0' <= c <= '9'
}

pub open spec fn digit_value(c: char) -> int {
    c as int - '0' as int
}

pub open spec fn all_digits(s: Seq<char>) -> bool {
    forall|i: int| 0 <= i < s.len() ==> is_digit(#[trigger] s[i])
}

/// The number written by the decimal digits `s`.
pub open spec fn digits_value(s: Seq<char>) -> int
    decreases s.len(),
{
    if s.len() == 0 {
        0
    } else {
        digits_value(s.drop_last()) * 10 + digit_value(s.last())
    }
}

/// The number written by `s` in Rust's integer syntax: an optional sign (a `-`
/// only where `signed`) and one or more ASCII digits.
pub open spec fn int_text_value(s: Seq<char>, signed: bool) -> Option<int> {
    if s.len() > 0 && s[0] == '-' {
        if signed && s.len() > 1 && all_digits(s.skip(1)) {
            Some(-digits_value(s.skip(1)))
        } else {
            None
        }
    } else if s.len() > 0 && s[0] == '+' {
        if s.len() > 1 && all_digits(s.skip(1)) {
            Some(digits_value(s.skip(1)))
        } else {
            None
        }
    } else if s.len() > 0 && all_digits(s) {
        Some(digits_value(s))
    } else {
        None
    }
}

/// `str::parse` for an integer type whose values are `lo..=hi` (signed where `lo < 0`).
pub open spec fn parse_int(s: Seq<char>, lo: int, hi: int) -> Option<int> {
    match int_text_value(s, lo < 0) {
        Some(v) => if lo <= v <= hi {
            Some(v)
        } else {
            None
        },
        None => None,
    }
}

pub proof fn lemma_digits_value_nonneg(s: Seq<char>)
    requires
        all_digits(s),
    ensures
        digits_value(s) >= 0,
    decreases s.len(),
{
    if s.len() > 0 {
        assert(all_digits(s.drop_last())) by {
            assert forall|i: int| 0 <= i < s.drop_last().len() implies is_digit(
                #[trigger] s.drop_last()[i],
            ) by {
                assert(s.drop_last()[i] == s[i]);
            }
        }
        lemma_digits_value_nonneg(s.drop_last());
        assert(is_digit(s[s.len() - 1]));
    }
}

/// Reads the digits of `v[a..b]` (no sign); `None` where one is not a digit or
/// the number exceeds `bound`.
fn read_digits(v: &Vec<char>, a: usize, b: usize, bound: u128) -> (r: Option<u128>)
    requires
        a <= b <= v.len(),
        bound < 0x1_0000_0000_0000_0000_0000,
    ensures
        r matches Some(x) ==> all_digits(v@.subrange(a as int, b as int)) && x == digits_value(
            v@.subrange(a as int, b as int),
        ) && x <= bound,
        r is None ==> !all_digits(v@.subrange(a as int, b as int)) || digits_value(
            v@.subrange(a as int, b as int),
        ) > bound,
{
    let ghost s = v@.subrange(a as int, b as int);
    let mut acc: u128 = 0;
    let mut i = a;
    while i < b
        invariant
            a <= i <= b <= v.len(),
            s == v@.subrange(a as int, b as int),
            bound < 0x1_0000_0000_0000_0000_0000,
            all_digits(s.take(i - a)),
            acc == digits_value(s.take(i - a)),
            acc <= bound,
        decreases b - i,
    {
        let c = v[i];
        assert(s.take(i - a + 1).drop_last() =~= s.take(i - a));
        assert(s[i - a] == c);
        if !('0' <= c && c <= '9') {
            assert(!is_digit(s[i - a]));
            return None;
        }
        let d = (c as u32 - '0' as u32) as u128;
        acc = acc * 10 + d;
        i += 1;
        assert(all_digits(s.take(i - a))) by {
            assert forall|k: int| 0 <= k < i - a implies is_digit(#[trigger] s.take(i - a)[k]) by {
                if k < i - a - 1 {
                    assert(s.take(i - a)[k] == s.take(i - a - 1)[k]);
                }
            }
        }
        if acc > bound {
            proof {
                lemma_digits_prefix_le(s, i - a);
            }
            return None;
        }
    }
    assert(s.take(i - a) =~= s);
    Some(acc)
}

/// The number written by a prefix of a digit string is at most the whole number.
pub proof fn lemma_digits_prefix_le(s: Seq<char>, k: int)
    requires
        0 <= k <= s.len(),
        all_digits(s.take(k)),
    ensures
        all_digits(s) ==> digits_value(s.take(k)) <= digits_value(s),
    decreases s.len() - k,
{
    if k == s.len() {
        assert(s.take(k) =~= s);
    }
    if all_digits(s) && k < s.len() {
        assert(all_digits(s.take(k + 1))) by {
            assert forall|i: int| 0 <= i < k + 1 implies is_digit(#[trigger] s.take(k + 1)[i]) by {
                assert(s.take(k + 1)[i] == s[i]);
            }
        }
        lemma_digits_prefix_le(s, k + 1);
        assert(s.take(k + 1).drop_last() =~= s.take(k));
        lemma_digits_value_nonneg(s.take(k));
    }
}

/// `str::parse` for an integer type whose values are `lo..=hi`.
pub fn parse_int_vec(v: &Vec<char>, lo: i128, hi: i128) -> (r: Option<i128>)
    requires
        -0x1_0000_0000_0000_0000 <= lo <= 0 <= hi < 0x1_0000_0000_0000_0000,
    ensures
        r matches Some(x) ==> parse_int(v@, lo as int, hi as int) == Some(x as int),
        r is None ==> parse_int(v@, lo as int, hi as int) is None,
{
    let ghost s = v@;
    if v.len() == 0 {
        return None;
    }
    let signed = lo < 0;
    if v[0] == '-' {
        if !signed || v.len() == 1 {
            return None;
        }
        let bound = (0 - lo) as u128;
        match read_digits(v, 1, v.len(), bound) {
            Some(x) => {
                assert(v@.subrange(1, v@.len() as int) =~= s.skip(1));
                Some(0 - (x as i128))
            },
            None => {
                assert(v@.subrange(1, v@.len() as int) =~= s.skip(1));
                None
            },
        }
    } else if v[0] == '+' {
        if v.len() == 1 {
            return None;
        }
        match read_digits(v, 1, v.len(), hi as u128) {
            Some(x) => {
                assert(v@.subrange(1, v@.len() as int) =~= s.skip(1));
                proof {
                    lemma_digits_value_nonneg(s.skip(1));
                }
                Some(x as i128)
            },
            None => {
                assert(v@.subrange(1, v@.len() as int) =~= s.skip(1));
                None
            },
        }
    } else {
        match read_digits(v, 0, v.len(), hi as u128) {
            Some(x) => {
                assert(v@.subrange(0, v@.len() as int) =~= s);
                proof {
                    lemma_digits_value_nonneg(s);
                }
                Some(x as i128)
            },
            None => {
                assert(v@.subrange(0, v@.len() as int) =~= s);
                None
            },
        }
    }
}


/// The ASCII digit for `d` in `0..10`.
pub open spec fn digit_char(d: int) -> char {
    (d + '0' as int) as char
}

/// Decimal digits of `n`, as `Display` writes them.
pub open spec fn nat_text(n: nat) -> Seq<char>
    decreases n,
{
    if n < 10 {
        seq![digit_char(n as int)]
    } else {
        nat_text((n / 10) as nat) + seq![digit_char((n % 10) as int)]
    }
}

/// An integer as `Display` writes it: a `-` for negative numbers, then the digits.
pub open spec fn int_text(n: int) -> Seq<char> {
    if n < 0 {
        seq!['-'] + nat_text((-n) as nat)
    } else {
        nat_text(n as nat)
    }
}

fn push_nat(out: &mut Vec<char>, n: u128)
    ensures
        final(out)@ == old(out)@ + nat_text(n as nat),
    decreases n,
{
    if n >= 10 {
        push_nat(out, n / 10);
    }
    let d = (n % 10) as u32;
    let c = char_from_digit(d);
    out.push(c);
    proof {
        if n < 10 {
            assert(nat_text(n as nat) =~= seq![digit_char(n as int)]);
        }
    }
    assert(final(out)@ =~= old(out)@ + nat_text(n as nat)) by {
        if n >= 10 {
            assert(nat_text(n as nat) == nat_text((n / 10) as nat) + seq![digit_char((n % 10) as int)]);
        }
    }
}

fn char_from_digit(d: u32) -> (c: char)
    requires
        d < 10,
    ensures
        c == digit_char(d as int),
{
    let c = if d == 0 {
        '0'
    } else if d == 1 {
        '1'
    } else if d == 2 {
        '2'
    } else if d == 3 {
        '3'
    } else if d == 4 {
        '4'
    } else if d == 5 {
        '5'
    } else if d == 6 {
        '6'
    } else if d == 7 {
        '7'
    } else if d == 8 {
        '8'
    } else {
        '9'
    };
    assert(c as int == d + '0' as int);
    c
}

/// Appends the decimal text of `n`.
pub fn push_int(out: &mut Vec<char>, n: i128)
    requires
        n > i128::MIN,
    ensures
        final(out)@ == old(out)@ + int_text(n as int),
{
    if n < 0 {
        out.push('-');
        push_nat(out, (0 - n) as u128);
        assert(final(out)@ =~= old(out)@ + int_text(n as int));
    } else {
        push_nat(out, n as u128);
    }
}

/// Appends the characters of `s`.
pub fn push_seq(out: &mut Vec<char>, s: &Vec<char>)
    ensures
        final(out)@ == old(out)@ + s@,
{
    let mut i: usize = 0;
    while i < s.len()
        invariant
            i <= s.len(),
            out@ == old(out)@ + s@.take(i as int),
        decreases s.len() - i,
    {
        out.push(s[i]);
        i += 1;
        assert(out@ =~= old(out)@ + s@.take(i as int));
    }
    assert(s@.take(i as int) =~= s@);
}

/// The characters of `s`.
pub fn chars_of(s: &str) -> (r: Vec<char>)
    ensures
        r@ == s@,
{
    let mut r: Vec<char> = Vec::new();
    for c in it: s.chars()
        invariant
            it.seq() == s@,
            r@ == s@.take(it.index() as int),
    {
        r.push(c);
        assert(r@ =~= s@.take(it.index() + 1));
    }
    assert(s@.take(s@.len() as int) =~= s@);
    r
}

/// Appends the characters of `s`.
pub fn push_str(out: &mut Vec<char>, s: &str)
    ensures
        final(out)@ == old(out)@ + s@,
{
    let v = chars_of(s);
    push_seq(out, &v);
}


/// The text of `v` as a `String` (`FromIterator<char>` for `String`).
#[verifier::external_body]
pub fn string_of(v: &Vec<char>) -> (r: String)
    ensures
        r@ == v@,
{
    v.iter().collect()
}



/// Whether two character vectors hold the same text.
pub fn same_text(a: &Vec<char>, b: &Vec<char>) -> (r: bool)
    ensures
        r == (a@ == b@),
{
    if a.len() != b.len() {
        return false;
    }
    let mut i: usize = 0;
    while i < a.len()
        invariant
            a.len() == b.len(),
            i <= a.len(),
            forall|k: int| 0 <= k < i ==> a@[k] == b@[k],
        decreases a.len() - i,
    {
        if a[i] != b[i] {
            return false;
        }
        i += 1;
    }
    assert(a@ =~= b@);
    true
}

/// The first index of `c` in `v`.
pub fn first_index_vec(v: &Vec<char>, c: char) -> (r: Option<usize>)
    ensures
        r matches Some(k) ==> first_index(v@, c) == Some(k as int),
        r is None ==> first_index(v@, c) is None,
{
    let mut i: usize = 0;
    while i < v.len()
        invariant
            i <= v.len(),
            forall|k: int| 0 <= k < i ==> #[trigger] v@[k] != c,
        decreases v.len() - i,
    {
        if v[i] == c {
            proof {
                lemma_first_index(v@, c, i as int);
            }
            return Some(i);
        }
        i += 1;
    }
    proof {
        lemma_first_index(v@, c, i as int);
    }
    None
}


/// `nat_text(n)` is one or more digits that read back as `n`.
pub proof fn lemma_nat_text(n: nat)
    ensures
        nat_text(n).len() >= 1,
        all_digits(nat_text(n)),
        digits_value(nat_text(n)) == n,
    decreases n,
{
    let t = nat_text(n);
    if n < 10 {
        assert(t.drop_last() =~= Seq::<char>::empty());
        assert(digit_value(digit_char(n as int)) == n);
        assert(t.last() == digit_char(n as int));
        assert(digits_value(Seq::<char>::empty()) == 0);
        assert(digits_value(t) == digits_value(t.drop_last()) * 10 + digit_value(t.last()));
    } else {
        lemma_nat_text((n / 10) as nat);
        let d = digit_char((n % 10) as int);
        assert(t.drop_last() =~= nat_text((n / 10) as nat));
        assert(t.last() == d);
        assert(digit_value(d) == n % 10);
        assert(digits_value(t) == digits_value(t.drop_last()) * 10 + digit_value(t.last()));
        assert((n / 10) * 10 + n % 10 == n);
        assert forall|i: int| 0 <= i < t.len() implies is_digit(#[trigger] t[i]) by {
            if i < t.len() - 1 {
                assert(t[i] == nat_text((n / 10) as nat)[i]);
            }
        }
    }
}

/// `nat_text` writes different numbers differently.
pub proof fn lemma_nat_text_injective(a: nat, b: nat)
    ensures
        nat_text(a) == nat_text(b) ==> a == b,
{
    lemma_nat_text(a);
    lemma_nat_text(b);
}

/// Reading the text of an integer gives the integer back.
pub proof fn lemma_int_text_parse(n: int, lo: int, hi: int)
    requires
        lo <= n <= hi,
        lo <= 0,
    ensures
        parse_int(int_text(n), lo, hi) == Some(n),
{
    if n < 0 {
        let m = (-n) as nat;
        lemma_nat_text(m);
        let t = int_text(n);
        assert(t.skip(1) =~= nat_text(m));
        assert(t[0] == '-');
    } else {
        lemma_nat_text(n as nat);
        let t = nat_text(n as nat);
        assert(is_digit(t[0]));
    }
}


/// The trimmed lines that are not empty, in order.
pub open spec fn content_lines(ls: Seq<Seq<char>>) -> Seq<Seq<char>>
    decreases ls.len(),
{
    if ls.len() == 0 {
        seq![]
    } else {
        let prev = content_lines(ls.drop_last());
        let t = trim(ls.last());
        if t.len() > 0 {
            prev.push(t)
        } else {
            prev
        }
    }
}

/// The content lines of a prefix of `ls` begin the content lines of `ls`.
pub proof fn lemma_content_prefix(ls: Seq<Seq<char>>, i: int)
    requires
        0 <= i <= ls.len(),
    ensures
        content_lines(ls.take(i)).len() <= content_lines(ls).len(),
        forall|j: int|
            0 <= j < content_lines(ls.take(i)).len() ==> #[trigger] content_lines(ls.take(i))[j]
                == content_lines(ls)[j],
    decreases ls.len() - i,
{
    if i == ls.len() {
        assert(ls.take(i) =~= ls);
    } else {
        lemma_content_prefix(ls, i + 1);
        let a = ls.take(i);
        let b = ls.take(i + 1);
        assert(b.drop_last() =~= a);
        assert forall|j: int| 0 <= j < content_lines(a).len() implies #[trigger] content_lines(a)[j]
            == content_lines(ls)[j] by {
            assert(content_lines(a)[j] == content_lines(b)[j]);
        }
    }
}

/// Field `i` of a split line, trimmed.
pub open spec fn field(parts: Seq<Seq<char>>, i: int) -> Seq<char> {
    trim(parts[i])
}

/// Copies field `i` of a split line, trimmed.
pub fn field_vec(parts: &Vec<Vec<char>>, i: usize) -> (r: Vec<char>)
    requires
        i < parts.len(),
    ensures
        r@ == field(views(parts@), i as int),
{
    trim_vec(&parts[i])
}

/// Reads field `i` of a split line, trimmed, as an integer in `lo..=hi`.
pub fn int_field(parts: &Vec<Vec<char>>, i: usize, lo: i128, hi: i128) -> (r: Option<i128>)
    requires
        i < parts.len(),
        -0x1_0000_0000_0000_0000 <= lo <= 0 <= hi < 0x1_0000_0000_0000_0000,
    ensures
        r matches Some(x) ==> parse_int(field(views(parts@), i as int), lo as int, hi as int)
            == Some(x as int),
        r is None ==> parse_int(field(views(parts@), i as int), lo as int, hi as int) is None,
{
    let f = field_vec(parts, i);
    parse_int_vec(&f, lo, hi)
}


/// A sequence without repeats whose items all occur in `b` is no longer than `b`.
pub proof fn lemma_distinct_within<A>(a: Seq<A>, b: Seq<A>)
    requires
        a.no_duplicates(),
        forall|i: int| 0 <= i < a.len() ==> b.contains(#[trigger] a[i]),
    ensures
        a.len() <= b.len(),
{
    broadcast use vstd::seq_lib::seq_to_set_is_finite;
    a.unique_seq_to_set();
    b.lemma_cardinality_of_set();
    assert(a.to_set().subset_of(b.to_set())) by {
        assert forall|x: A| a.to_set().contains(x) implies b.to_set().contains(x) by {
            let i = choose|i: int| 0 <= i < a.len() && a[i] == x;
            assert(b.contains(a[i]));
        }
    }
    vstd::set_lib::lemma_len_subset(a.to_set(), b.to_set());
}


/// Number of leading characters equal to `a` or `b`.
pub open spec fn lead_in(s: Seq<char>, a: char, b: char) -> nat
    decreases s.len(),
{
    if s.len() > 0 && (s[0] == a || s[0] == b) {
        1 + lead_in(s.drop_first(), a, b)
    } else {
        0
    }
}

/// Number of trailing characters equal to `c`.
pub open spec fn trail_of(s: Seq<char>, c: char) -> nat
    decreases s.len(),
{
    if s.len() > 0 && s.last() == c {
        1 + trail_of(s.drop_last(), c)
    } else {
        0
    }
}

/// `str::trim_start_matches` with the characters `a` and `b`.
pub open spec fn trim_start_in(s: Seq<char>, a: char, b: char) -> Seq<char> {
    s.skip(lead_in(s, a, b) as int)
}

/// `str::trim_matches(c)`: `c` removed from both ends.
pub open spec fn trim_char(s: Seq<char>, c: char) -> Seq<char> {
    let t = s.skip(lead_in(s, c, c) as int);
    t.take(t.len() - trail_of(t, c))
}

pub proof fn lemma_lead_in(s: Seq<char>, a: char, b: char, k: int)
    requires
        0 <= k <= s.len(),
        forall|i: int| 0 <= i < k ==> #[trigger] s[i] == a || s[i] == b,
        k < s.len() ==> s[k] != a && s[k] != b,
    ensures
        lead_in(s, a, b) == k,
    decreases s.len(),
{
    if k > 0 {
        assert(s[0] == a || s[0] == b);
        assert forall|i: int| 0 <= i < k - 1 implies #[trigger] s.drop_first()[i] == a || s.drop_first()[i] == b by {
            assert(s.drop_first()[i] == s[i + 1]);
        }
        if k < s.len() {
            assert(s.drop_first()[k - 1] == s[k]);
        }
        lemma_lead_in(s.drop_first(), a, b, k - 1);
    }
}

pub proof fn lemma_trail_of(s: Seq<char>, c: char, k: int)
    requires
        0 <= k <= s.len(),
        forall|i: int| s.len() - k <= i < s.len() ==> #[trigger] s[i] == c,
        k < s.len() ==> s[s.len() - k - 1] != c,
    ensures
        trail_of(s, c) == k,
    decreases s.len(),
{
    if k > 0 {
        assert(s[s.len() - 1] == c);
        let t = s.drop_last();
        assert forall|i: int| t.len() - (k - 1) <= i < t.len() implies #[trigger] t[i] == c by {
            assert(t[i] == s[i]);
        }
        if k < s.len() {
            assert(t[t.len() - (k - 1) - 1] == s[s.len() - k - 1]);
        }
        lemma_trail_of(t, c, k - 1);
    }
}

/// The count of leading `a`/`b` characters of `v`.
pub fn lead_in_vec(v: &Vec<char>, a: char, b: char) -> (r: usize)
    ensures
        r == lead_in(v@, a, b),
        r <= v.len(),
{
    let mut i: usize = 0;
    while i < v.len() && (v[i] == a || v[i] == b)
        invariant
            i <= v.len(),
            forall|k: int| 0 <= k < i ==> #[trigger] v@[k] == a || v@[k] == b,
        decreases v.len() - i,
    {
        i += 1;
    }
    proof {
        lemma_lead_in(v@, a, b, i as int);
    }
    i
}

/// Copies `trim_char(v, c)`.
pub fn trim_char_vec(v: &Vec<char>, c: char) -> (r: Vec<char>)
    ensures
        r@ == trim_char(v@, c),
{
    let i = lead_in_vec(v, c, c);
    let ghost t = v@.skip(i as int);
    let mut j = v.len();
    while j > i && v[j - 1] == c
        invariant
            i <= j <= v.len(),
            i == lead_in(v@, c, c),
            t == v@.skip(i as int),
            forall|k: int| j <= k < v.len() ==> #[trigger] v@[k] == c,
        decreases j - i,
    {
        j -= 1;
    }
    proof {
        assert forall|k: int| t.len() - (v.len() - j) <= k < t.len() implies #[trigger] t[k] == c by {
            assert(t[k] == v@[k + i]);
        }
        if v.len() - j < t.len() {
            assert(t[t.len() - (v.len() - j) - 1] == v@[j - 1]);
        }
        lemma_trail_of(t, c, v.len() - j);
    }
    let r = sub_vec(v, i, j);
    assert(r@ =~= t.take(t.len() - trail_of(t, c)));
    r
}


/// Copies `trim_end(v[..k])`.
pub fn trim_end_vec(v: &Vec<char>, k: usize) -> (r: Vec<char>)
    requires
        k <= v.len(),
    ensures
        r@ == trim_end(v@.take(k as int)),
{
    let ghost s = v@.take(k as int);
    let mut j = k;
    while j > 0 && char_is_ws(v[j - 1])
        invariant
            j <= k <= v.len(),
            s == v@.take(k as int),
            forall|m: int| j <= m < k ==> is_ws(#[trigger] v@[m]),
        decreases j,
    {
        j -= 1;
    }
    proof {
        assert forall|m: int| s.len() - (k - j) <= m < s.len() implies is_ws(#[trigger] s[m]) by {
            assert(s[m] == v@[m]);
        }
        if k - j < s.len() {
            assert(s[s.len() - (k - j) - 1] == v@[j - 1]);
        }
        lemma_trail_ws_char(s, k - j);
    }
    let r = sub_vec(v, 0, j);
    assert(r@ =~= s.take(s.len() - trail_ws(s)));
    r
}


/// ASCII letters to lower case, other characters kept.
pub open spec fn ascii_lower(c: char) -> char {
    if 'A' <= c <= 'Z' {
        ((c as u32) + 32) as char
    } else {
        c
    }
}

/// `str::to_ascii_lowercase`.
pub open spec fn ascii_lowercase(s: Seq<char>) -> Seq<char> {
    s.map_values(|c: char| ascii_lower(c))
}

pub fn char_ascii_lower(c: char) -> (r: char)
    ensures
        r == ascii_lower(c),
{
    if 'A' <= c && c <= 'Z' {
        let u = (c as u32) + 32;
        assert(0x61 <= u <= 0x7A);
        let r = char_from_u32_ascii(u);
        r
    } else {
        c
    }
}

fn char_from_u32_ascii(u: u32) -> (r: char)
    requires
        u < 128,
    ensures
        r == u as char,
{
    let b = u as u8;
    let r = b as char;
    assert(r == u as char);
    r
}

/// `str::eq_ignore_ascii_case`.
pub fn eq_ignore_ascii_case(a: &Vec<char>, b: &Vec<char>) -> (r: bool)
    ensures
        r == (ascii_lowercase(a@) == ascii_lowercase(b@)),
{
    if a.len() != b.len() {
        assert(ascii_lowercase(a@).len() != ascii_lowercase(b@).len());
        return false;
    }
    let mut i: usize = 0;
    while i < a.len()
        invariant
            a.len() == b.len(),
            i <= a.len(),
            forall|k: int| 0 <= k < i ==> ascii_lower(a@[k]) == ascii_lower(b@[k]),
        decreases a.len() - i,
    {
        if char_ascii_lower(a[i]) != char_ascii_lower(b[i]) {
            assert(ascii_lowercase(a@)[i as int] != ascii_lowercase(b@)[i as int]);
            return false;
        }
        i += 1;
    }
    assert(ascii_lowercase(a@) =~= ascii_lowercase(b@));
    true
}

} // verus!
