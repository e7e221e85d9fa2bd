//! Character sequences: the operations on text that the rest of the crate builds on.
use vstd::prelude::*;

verus! {

// ------------------------------------------------------------------ standard library

/// `String::push` appends one character.
pub assume_specification[ std::string::String::push ](s: &mut std::string::String, c: char)
    ensures
        final(s)@ == old(s)@.push(c),
;

/// `==` on string slices compares their characters.
#[verifier::external_body]
pub(crate) fn same_text(a: &str, b: &str) -> (r: bool)
    ensures
        r == (a@ == b@),
{
    a == b
}

// ------------------------------------------------------------------ views of containers

/// The views of the elements of a sequence.
pub open spec fn views<T: View>(s: Seq<T>) -> Seq<T::V> {
    s.map_values(|t: T| t@)
}

/// The view of an optional value.
pub open spec fn opt_view<T: View>(o: Option<T>) -> Option<T::V> {
    match o {
        Some(t) => Some(t@),
        None => None,
    }
}

/// A copy of a list, element by element.
pub fn clone_all<T: View + Clone>(v: &Vec<T>) -> (r: Vec<T>)
    requires
        forall|a: &T, b: T| call_ensures(T::clone, (a,), b) ==> b@ == a@,
        forall|a: &T| call_requires(T::clone, (a,)),
    ensures
        views(r@) == views(v@),
{
    let mut out: Vec<T> = Vec::new();
    let mut i: usize = 0;
    while i < v.len()
        invariant
            i <= v@.len(),
            out@.len() == i,
            forall|j: int| 0 <= j < i ==> out@[j]@ == v@[j]@,
            forall|a: &T, b: T| call_ensures(T::clone, (a,), b) ==> b@ == a@,
            forall|a: &T| call_requires(T::clone, (a,)),
        decreases v@.len() - i,
    {
        out.push(v[i].clone());
        i += 1;
    }
    assert(views(out@) =~= views(v@));
    out
}

/// A copy of an optional value.
pub fn clone_opt<T: View + Clone>(o: &Option<T>) -> (r: Option<T>)
    requires
        forall|a: &T, b: T| call_ensures(T::clone, (a,), b) ==> b@ == a@,
        forall|a: &T| call_requires(T::clone, (a,)),
    ensures
        opt_view(r) == opt_view(*o),
{
    match o {
        Some(t) => Some(t.clone()),
        None => None,
    }
}

/// A copy of an optional text.
pub fn clone_opt_string(o: &Option<String>) -> (r: Option<String>)
    ensures
        opt_view(r) == opt_view(*o),
{
    match o {
        Some(s) => Some(s.clone()),
        None => None,
    }
}

/// A copy of a list of texts.
pub fn clone_strings(v: &Vec<String>) -> (r: Vec<String>)
    ensures
        views(r@) == views(v@),
{
    let mut out: Vec<String> = Vec::new();
    let mut i: usize = 0;
    while i < v.len()
        invariant
            i <= v@.len(),
            out@.len() == i,
            forall|j: int| 0 <= j < i ==> out@[j]@ == v@[j]@,
        decreases v@.len() - i,
    {
        out.push(v[i].clone());
        i += 1;
    }
    assert(views(out@) == views(v@));
    out
}

/// Whether a list holds a text.
pub fn contains_text(v: &Vec<String>, s: &str) -> (r: bool)
    ensures
        r == views(v@).contains(s@),
{
    let mut i: usize = 0;
    while i < v.len()
        invariant
            i <= v@.len(),
            forall|j: int| 0 <= j < i ==> #[trigger] views(v@)[j] != s@,
        decreases v@.len() - i,
    {
        if same_text(v[i].as_str(), s) {
            assert(views(v@)[i as int] == s@);
            return true;
        }
        i += 1;
    }
    false
}

/// Appending an element appends its view.
pub proof fn lemma_views_push<T: View>(s: Seq<T>, t: T)
    ensures
        views(s.push(t)) == views(s).push(t@),
{
    assert(views(s.push(t)) =~= views(s).push(t@));
}

// ------------------------------------------------------------------ conversions

/// The characters of a text, one by one.
pub fn to_chars(s: &str) -> (r: Vec<char>)
    ensures
        r@ == s@,
{
    let mut out: Vec<char> = Vec::new();
    for c in it: s.chars()
        invariant
            out@ == it.seq().take(it.index() as int),
            it.seq() == s@,
    {
        out.push(c);
    }
    assert(s@.take(s@.len() as int) == s@);
    out
}

/// The text of the characters from `from` up to `to`.
pub fn slice_string(v: &Vec<char>, from: usize, to: usize) -> (r: String)
    requires
        from <= to <= v@.len(),
    ensures
        r@ == v@.subrange(from as int, to as int),
{
    let mut out = String::new();
    let mut i: usize = from;
    while i < to
        invariant
            from <= i <= to <= v@.len(),
            out@ == v@.subrange(from as int, i as int),
        decreases to - i,
    {
        out.push(v[i]);
        i += 1;
    }
    out
}

/// The text of a whole character vector.
pub fn from_chars(v: &Vec<char>) -> (r: String)
    ensures
        r@ == v@,
{
    slice_string(v, 0, v.len())
}

/// The texts `a` and `b` one after the other.
pub fn concat(a: &str, b: &str) -> (r: String)
    ensures
        r@ == a@ + b@,
{
    let mut out = a.to_owned();
    out.append(b);
    out
}

// ------------------------------------------------------------------ joining

/// The parts one after the other, with `sep` between neighbours.
pub open spec fn join(parts: Seq<Seq<char>>, sep: Seq<char>) -> Seq<char>
    decreases parts.len(),
{
    if parts.len() == 0 {
        Seq::empty()
    } else if parts.len() == 1 {
        parts[0]
    } else {
        join(parts.drop_last(), sep) + sep + parts.last()
    }
}

/// Joins texts with a separator.
pub fn join_strings(parts: &Vec<String>, sep: &str) -> (r: String)
    ensures
        r@ == join(views(parts@), sep@),
{
    let mut out = String::new();
    let mut i: usize = 0;
    while i < parts.len()
        invariant
            i <= parts@.len(),
            out@ == join(views(parts@).take(i as int), sep@),
        decreases parts@.len() - i,
    {
        let ghost done = views(parts@).take(i as int + 1);
        assert(done.drop_last() == views(parts@).take(i as int));
        assert(done.last() == parts@[i as int]@);
        if i > 0 {
            out.append(sep);
        }
        out.append(parts[i].as_str());
        i += 1;
    }
    assert(views(parts@).take(parts@.len() as int) == views(parts@));
    out
}

// ------------------------------------------------------------------ white space

/// Which characters count as white space.
#[derive(Clone, Copy, Debug, PartialEq, Eq, Structural)]
pub enum Space {
    /// The Unicode property `White_Space`.
    Unicode,
    /// The class `\\s` of JavaScript: as above, with U+FEFF and without U+0085.
    Js,
}

/// Whether `c` is white space.
pub open spec fn is_space(kind: Space, c: char) -> bool {
    let n = c as u32;
    ||| 0x9 <= n <= 0xd
    ||| n == 0x20
    ||| n == 0x85 && kind == Space::Unicode
    ||| n == 0xa0
    ||| n == 0x1680
    ||| 0x2000 <= n <= 0x200a
    ||| n == 0x2028
    ||| n == 0x2029
    ||| n == 0x202f
    ||| n == 0x205f
    ||| n == 0x3000
    ||| n == 0xfeff && kind == Space::Js
}

/// Whether `c` is white space.
pub fn is_space_char(kind: Space, c: char) -> (r: bool)
    ensures
        r == is_space(kind, c),
{
    let n: u32 = c as u32;
    (0x9 <= n && n <= 0xd) || n == 0x20 || (n == 0x85 && kind == Space::Unicode) || n == 0xa0 || n
        == 0x1680 || (0x2000 <= n && n <= 0x200a) || n == 0x2028 || n == 0x2029 || n == 0x202f || n
        == 0x205f || n == 0x3000 || (n == 0xfeff && kind == Space::Js)
}

/// Whether a text holds nothing but white space.
pub open spec fn all_space(kind: Space, s: Seq<char>) -> bool {
    forall|i: int| 0 <= i < s.len() ==> is_space(kind, #[trigger] s[i])
}

/// The text without the white space at its start.
pub open spec fn trim_start(kind: Space, s: Seq<char>) -> Seq<char>
    decreases s.len(),
{
    if s.len() > 0 && is_space(kind, s[0]) {
        trim_start(kind, s.drop_first())
    } else {
        s
    }
}

/// The text without the white space at its end.
pub open spec fn trim_end(kind: Space, s: Seq<char>) -> Seq<char>
    decreases s.len(),
{
    if s.len() > 0 && is_space(kind, s.last()) {
        trim_end(kind, s.drop_last())
    } else {
        s
    }
}

/// The text without the white space at both ends.
pub open spec fn trim(kind: Space, s: Seq<char>) -> Seq<char> {
    trim_end(kind, trim_start(kind, s))
}

/// Trimming the start leaves a suffix that does not start with white space; what went is
/// white space.
pub proof fn lemma_trim_start(kind: Space, s: Seq<char>)
    ensures
        trim_start(kind, s).len() <= s.len(),
        trim_start(kind, s) == s.skip(s.len() - trim_start(kind, s).len()),
        trim_start(kind, s).len() > 0 ==> !is_space(kind, trim_start(kind, s)[0]),
        all_space(kind, s.take(s.len() - trim_start(kind, s).len())),
    decreases s.len(),
{
    if s.len() > 0 && is_space(kind, s[0]) {
        let t = s.drop_first();
        lemma_trim_start(kind, t);
        let n = t.len() - trim_start(kind, t).len();
        assert(t.skip(n) =~= s.skip(n + 1));
        assert forall|i: int| 0 <= i < s.take(n + 1).len() implies is_space(
            kind,
            #[trigger] s.take(n + 1)[i],
        ) by {
            if i > 0 {
                assert(t.take(n)[i - 1] == s[i]);
            }
        }
    } else {
        assert(s.skip(0) =~= s);
    }
}

/// Trimming the end leaves a prefix that does not end with white space; what went is white
/// space.
pub proof fn lemma_trim_end(kind: Space, s: Seq<char>)
    ensures
        trim_end(kind, s).len() <= s.len(),
        trim_end(kind, s) == s.take(trim_end(kind, s).len() as int),
        trim_end(kind, s).len() > 0 ==> !is_space(kind, trim_end(kind, s).last()),
        all_space(kind, s.skip(trim_end(kind, s).len() as int)),
    decreases s.len(),
{
    if s.len() > 0 && is_space(kind, s.last()) {
        let t = s.drop_last();
        lemma_trim_end(kind, t);
        let n = trim_end(kind, t).len() as int;
        assert(t.take(n) =~= s.take(n));
        assert forall|i: int| 0 <= i < s.skip(n).len() implies is_space(
            kind,
            #[trigger] s.skip(n)[i],
        ) by {
            if i < t.skip(n).len() {
                assert(t.skip(n)[i] == s[n + i]);
            }
        }
    } else {
        assert(s.take(s.len() as int) =~= s);
    }
}

/// Where the text without the white space at its start begins.
fn start_of(kind: Space, v: &Vec<char>) -> (r: usize)
    ensures
        r <= v@.len(),
        v@.skip(r as int) == trim_start(kind, v@),
{
    let mut i: usize = 0;
    assert(v@.skip(0) =~= v@);
    while i < v.len() && is_space_char(kind, v[i])
        invariant
            i <= v@.len(),
            trim_start(kind, v@.skip(i as int)) == trim_start(kind, v@),
        decreases v@.len() - i,
    {
        assert(v@.skip(i as int).drop_first() =~= v@.skip(i as int + 1));
        i += 1;
    }
    i
}

/// Where the text without the white space at its end stops, counted from `from`.
fn end_of(kind: Space, v: &Vec<char>, from: usize) -> (r: usize)
    requires
        from <= v@.len(),
    ensures
        from <= r <= v@.len(),
        v@.subrange(from as int, r as int) == trim_end(kind, v@.skip(from as int)),
{
    let mut i: usize = v.len();
    assert(v@.subrange(from as int, i as int) =~= v@.skip(from as int));
    while i > from && is_space_char(kind, v[i - 1])
        invariant
            from <= i <= v@.len(),
            trim_end(kind, v@.subrange(from as int, i as int)) == trim_end(
                kind,
                v@.skip(from as int),
            ),
        decreases i,
    {
        assert(v@.subrange(from as int, i as int).drop_last() =~= v@.subrange(
            from as int,
            i as int - 1,
        ));
        i -= 1;
    }
    i
}

/// The text without the white space at its start.
pub fn trim_start_text(kind: Space, s: &str) -> (r: String)
    ensures
        r@ == trim_start(kind, s@),
{
    let v = to_chars(s);
    let i: usize = start_of(kind, &v);
    slice_string(&v, i, v.len())
}

/// The text without the white space at its end.
pub fn trim_end_text(kind: Space, s: &str) -> (r: String)
    ensures
        r@ == trim_end(kind, s@),
{
    let v = to_chars(s);
    let j: usize = end_of(kind, &v, 0);
    assert(v@.skip(0) =~= v@);
    slice_string(&v, 0, j)
}

/// The text without the white space at both ends.
pub fn trim_text(kind: Space, s: &str) -> (r: String)
    ensures
        r@ == trim(kind, s@),
{
    let v = to_chars(s);
    let i: usize = start_of(kind, &v);
    let j: usize = end_of(kind, &v, i);
    slice_string(&v, i, j)
}

/// Whether a text holds nothing but white space.
pub fn is_blank(kind: Space, s: &str) -> (r: bool)
    ensures
        r == all_space(kind, s@),
{
    let v = to_chars(s);
    let mut i: usize = 0;
    while i < v.len()
        invariant
            i <= v@.len(),
            v@ == s@,
            forall|j: int| 0 <= j < i ==> is_space(kind, #[trigger] v@[j]),
        decreases v@.len() - i,
    {
        if !is_space_char(kind, v[i]) {
            assert(!is_space(kind, s@[i as int]));
            return false;
        }
        i += 1;
    }
    true
}

// ------------------------------------------------------------------ numbers in text

/// The character of a decimal digit.
pub open spec fn digit(d: int) -> char {
    if d == 0 {
        '0'
    } else if d == 1 {
        '1'
    } else if d == 2 {
        '2'
    } else if d == 3 {
        '3'
    } else if d == 4 {
        '4'
    } else if d == 5 {
        '5'
    } else if d == 6 {
        '6'
    } else if d == 7 {
        '7'
    } else if d == 8 {
        '8'
    } else {
        '9'
    }
}

/// The decimal text of a number.
pub open spec fn decimal(n: nat) -> Seq<char>
    decreases n,
{
    if n < 10 {
        seq![digit(n as int)]
    } else {
        decimal(n / 10).push(digit((n % 10) as int))
    }
}

/// The character of a decimal digit.
fn digit_char(d: u128) -> (r: char)
    requires
        d < 10,
    ensures
        r == digit(d as int),
{
    match d {
        0 => '0',
        1 => '1',
        2 => '2',
        3 => '3',
        4 => '4',
        5 => '5',
        6 => '6',
        7 => '7',
        8 => '8',
        _ => '9',
    }
}

/// The decimal text of a number.
pub fn wide_decimal_text(n: u128) -> (r: String)
    ensures
        r@ == decimal(n as nat),
    decreases n,
{
    if n < 10 {
        let mut out = String::new();
        out.push(digit_char(n));
        assert(out@ =~= seq![digit(n as int)]);
        out
    } else {
        let mut out = wide_decimal_text(n / 10);
        out.push(digit_char(n % 10));
        out
    }
}

/// The decimal text of a number.
pub fn decimal_text(n: u64) -> (r: String)
    ensures
        r@ == decimal(n as nat),
{
    wide_decimal_text(n as u128)
}

// ------------------------------------------------------------------ shortening

/// The first `max` characters with an ellipsis where the text is longer, else the text.
pub open spec fn truncated(s: Seq<char>, max: int) -> Seq<char> {
    if s.len() <= max {
        s
    } else {
        s.take(max) + "…"@
    }
}

/// The first `max` characters with an ellipsis where the text is longer, else the text.
pub fn truncate(s: &str, max: usize) -> (r: String)
    ensures
        r@ == truncated(s@, max as int),
{
    let v = to_chars(s);
    if v.len() <= max {
        s.to_owned()
    } else {
        let mut out = slice_string(&v, 0, max);
        out.append("…");
        out
    }
}

// ------------------------------------------------------------------ searching

/// The index of the first `c` at or after `from`.
pub open spec fn find_char(s: Seq<char>, c: char, from: int) -> Option<int>
    decreases s.len() - from,
{
    if from < 0 || from >= s.len() {
        None
    } else if s[from] == c {
        Some(from)
    } else {
        find_char(s, c, from + 1)
    }
}

/// A found index holds the character, and nothing before it does.
pub proof fn lemma_find_char(s: Seq<char>, c: char, from: int)
    requires
        0 <= from,
    ensures
        match find_char(s, c, from) {
            Some(i) => from <= i < s.len() && s[i] == c && forall|j: int|
                from <= j < i ==> #[trigger] s[j] != c,
            None => forall|j: int| from <= j < s.len() ==> #[trigger] s[j] != c,
        },
    decreases s.len() - from,
{
    if from < s.len() && s[from] != c {
        lemma_find_char(s, c, from + 1);
    }
}

/// The index of the first `c` at or after `from`.
pub fn find_char_at(v: &Vec<char>, c: char, from: usize) -> (r: Option<usize>)
    ensures
        match r {
            Some(i) => find_char(v@, c, from as int) == Some(i as int) && from <= i < v@.len(),
            None => find_char(v@, c, from as int) is None,
        },
{
    let mut i: usize = from;
    while i < v.len()
        invariant
            from <= i,
            find_char(v@, c, from as int) == find_char(v@, c, i as int),
        decreases v@.len() - i,
    {
        if v[i] == c {
            return Some(i);
        }
        i += 1;
    }
    None
}

/// Whether the text `p` stands in `s` at index `i`.
pub open spec fn stands_at(s: Seq<char>, i: int, p: Seq<char>) -> bool {
    0 <= i && i + p.len() <= s.len() && s.subrange(i, i + p.len()) == p
}

/// Whether the text `p` stands in `v` at index `i`.
pub fn is_at(v: &Vec<char>, i: usize, p: &str) -> (r: bool)
    ensures
        r == stands_at(v@, i as int, p@),
{
    let q = to_chars(p);
    let n: usize = v.len();
    if i > n || q.len() > n - i {
        return false;
    }
    let mut k: usize = 0;
    while k < q.len()
        invariant
            k <= q@.len(),
            q@ == p@,
            i + q@.len() <= n,
            n == v@.len(),
            forall|j: int| 0 <= j < k ==> v@[i + j] == #[trigger] q@[j],
        decreases q@.len() - k,
    {
        if v[i + k] != q[k] {
            assert(v@.subrange(i as int, i + q@.len())[k as int] != p@[k as int]);
            return false;
        }
        k += 1;
    }
    assert(v@.subrange(i as int, i + q@.len()) =~= p@);
    true
}

/// The index of the first place at or after `from` where `p` stands.
pub open spec fn find_text(s: Seq<char>, p: Seq<char>, from: int) -> Option<int>
    decreases s.len() - from + 1,
{
    if from < 0 || from > s.len() {
        None
    } else if stands_at(s, from, p) {
        Some(from)
    } else {
        find_text(s, p, from + 1)
    }
}

/// At a found place the text stands, and nowhere before it.
pub proof fn lemma_find_text(s: Seq<char>, p: Seq<char>, from: int)
    requires
        0 <= from,
    ensures
        match find_text(s, p, from) {
            Some(i) => from <= i && stands_at(s, i, p) && forall|j: int|
                from <= j < i ==> !#[trigger] stands_at(s, j, p),
            None => forall|j: int| from <= j ==> !#[trigger] stands_at(s, j, p),
        },
    decreases s.len() - from + 1,
{
    if from <= s.len() && !stands_at(s, from, p) {
        lemma_find_text(s, p, from + 1);
    }
}

/// The index of the first place at or after `from` where `p` stands.
pub fn find_text_at(v: &Vec<char>, p: &str, from: usize) -> (r: Option<usize>)
    requires
        from <= v@.len(),
    ensures
        match r {
            Some(i) => find_text(v@, p@, from as int) == Some(i as int) && from <= i && i + p@.len()
                <= v@.len(),
            None => find_text(v@, p@, from as int) is None,
        },
{
    let mut i: usize = from;
    loop
        invariant
            from <= i <= v@.len(),
            find_text(v@, p@, from as int) == find_text(v@, p@, i as int),
        decreases v@.len() - i,
    {
        if is_at(v, i, p) {
            return Some(i);
        }
        if i == v.len() {
            assert(find_text(v@, p@, i as int + 1) is None);
            return None;
        }
        i += 1;
    }
}

// ------------------------------------------------------------------ reading integers

/// Whether `c` is a decimal digit.
pub open spec fn is_digit(c: char) -> bool {
    '0' <= c && c <= '9'
}

/// Whether a text consists of one or more decimal digits.
pub open spec fn is_digits(s: Seq<char>) -> bool {
    s.len() > 0 && forall|i: int| 0 <= i < s.len() ==> is_digit(#[trigger] s[i])
}

/// The number of a decimal digit.
pub open spec fn digit_value(c: char) -> int {
    c as int - '0' as int
}

/// The number that decimal digits stand for.
pub open spec fn digits_value(s: Seq<char>) -> int
    decreases s.len(),
{
    if s.len() == 0 {
        0
    } else {
        digits_value(s.drop_last()) * 10 + digit_value(s.last())
    }
}

/// More digits never make a smaller number.
proof fn lemma_digits_value(s: Seq<char>, i: int)
    requires
        is_digits(s),
        0 <= i <= s.len(),
    ensures
        0 <= digits_value(s.take(i)) <= digits_value(s),
    decreases s.len(),
{
    if i == s.len() {
        assert(s.take(i) =~= s);
        if i > 0 {
            if i > 1 {
                lemma_digits_value(s.drop_last(), i - 1);
                assert(s.drop_last().take(i - 1) =~= s.drop_last());
            } else {
                assert(s.drop_last() =~= Seq::empty());
            }
        }
    } else {
        let t = s.drop_last();
        if t.len() == 0 {
            assert(s.take(i) =~= Seq::empty());
            assert(digits_value(t) == 0);
        } else {
            lemma_digits_value(t, i);
            assert(t.take(i) =~= s.take(i));
        }
    }
}

/// The number that the characters from `from` up to `to` stand for, where they are digits and
/// the number fits.
pub fn digits_between(v: &Vec<char>, from: usize, to: usize) -> (r: Option<u64>)
    requires
        from <= to <= v@.len(),
    ensures
        ({
            let s = v@.subrange(from as int, to as int);
            match r {
                Some(n) => is_digits(s) && digits_value(s) == n,
                None => !is_digits(s) || digits_value(s) > u64::MAX,
            }
        }),
{
    let ghost s = v@.subrange(from as int, to as int);
    if from == to {
        return None;
    }
    let mut n: u64 = 0;
    let mut i: usize = from;
    while i < to
        invariant
            from <= i <= to <= v@.len(),
            s == v@.subrange(from as int, to as int),
            forall|j: int| 0 <= j < i - from ==> is_digit(#[trigger] s[j]),
            n == digits_value(s.take(i - from)),
        decreases to - i,
    {
        let c = v[i];
        assert(c == s[i - from]);
        if !('0' <= c && c <= '9') {
            assert(!is_digit(s[i - from]));
            return None;
        }
        let d: u64 = (c as u32 - '0' as u32) as u64;
        assert(s.take(i - from + 1).drop_last() =~= s.take(i - from));
        if n > (u64::MAX - d) / 10 {
            proof {
                if is_digits(s) {
                    lemma_digits_value(s, i - from + 1);
                }
            }
            return None;
        }
        n = n * 10 + d;
        i += 1;
    }
    assert(s.take(to - from) =~= s);
    Some(n)
}

/// The value of a text that is an optional plus sign and digits.
pub open spec fn unsigned_value(s: Seq<char>) -> Option<int> {
    let t = if s.len() > 0 && s[0] == '+' { s.skip(1) } else { s };
    if is_digits(t) {
        Some(digits_value(t))
    } else {
        None
    }
}

/// The value of a text that is an optional sign and digits.
pub open spec fn signed_value(s: Seq<char>) -> Option<int> {
    if s.len() > 0 && s[0] == '-' {
        if is_digits(s.skip(1)) {
            Some(-digits_value(s.skip(1)))
        } else {
            None
        }
    } else {
        unsigned_value(s)
    }
}

/// The number of an unsigned integer text, where it fits.
pub fn parse_unsigned(s: &str) -> (r: Option<u64>)
    ensures
        match r {
            Some(n) => unsigned_value(s@) == Some(n as int),
            None => match unsigned_value(s@) {
                Some(n) => n > u64::MAX,
                None => true,
            },
        },
{
    let v = to_chars(s);
    let from: usize = if v.len() > 0 && v[0] == '+' { 1 } else { 0 };
    assert(v@.subrange(from as int, v@.len() as int) =~= (if s@.len() > 0 && s@[0] == '+' {
        s@.skip(1)
    } else {
        s@
    }));
    digits_between(&v, from, v.len())
}

/// The number of a signed integer text, where it fits.
pub fn parse_signed(s: &str) -> (r: Option<i64>)
    ensures
        match r {
            Some(n) => signed_value(s@) == Some(n as int),
            None => match signed_value(s@) {
                Some(n) => n > i64::MAX || n < i64::MIN,
                None => true,
            },
        },
{
    let v = to_chars(s);
    if v.len() > 0 && v[0] == '-' {
        assert(v@.subrange(1, v@.len() as int) =~= s@.skip(1));
        match digits_between(&v, 1, v.len()) {
            Some(n) => if n <= 9223372036854775807 {
                Some(-(n as i64))
            } else if n == 9223372036854775808 {
                Some(i64::MIN)
            } else {
                None
            },
            None => None,
        }
    } else {
        match parse_unsigned(s) {
            Some(n) => if n <= 9223372036854775807 {
                Some(n as i64)
            } else {
                None
            },
            None => None,
        }
    }
}

// ------------------------------------------------------------------ letter case

/// The character with an ASCII capital turned into its small letter.
pub open spec fn lower_char(c: char) -> char {
    if 'A' <= c && c <= 'Z' {
        (c as u8 + 32) as char
    } else {
        c
    }
}

/// The character with an ASCII small letter turned into its capital.
pub open spec fn upper_char(c: char) -> char {
    if 'a' <= c && c <= 'z' {
        (c as u8 - 32) as char
    } else {
        c
    }
}

/// The text with ASCII capitals turned into small letters.
pub open spec fn lower(s: Seq<char>) -> Seq<char> {
    s.map_values(|c: char| lower_char(c))
}

/// The text with ASCII small letters turned into capitals.
pub open spec fn upper(s: Seq<char>) -> Seq<char> {
    s.map_values(|c: char| upper_char(c))
}

/// The text with ASCII capitals turned into small letters.
pub fn lower_text(s: &str) -> (r: String)
    ensures
        r@ == lower(s@),
{
    let v = to_chars(s);
    let mut out = String::new();
    let mut i: usize = 0;
    while i < v.len()
        invariant
            i <= v@.len(),
            out@ == lower(v@.take(i as int)),
        decreases v@.len() - i,
    {
        let c = v[i];
        out.push(if 'A' <= c && c <= 'Z' { (c as u8 + 32) as char } else { c });
        i += 1;
        assert(out@ =~= lower(v@.take(i as int)));
    }
    assert(v@.take(v@.len() as int) =~= v@);
    out
}

/// The text with ASCII small letters turned into capitals.
pub fn upper_text(s: &str) -> (r: String)
    ensures
        r@ == upper(s@),
{
    let v = to_chars(s);
    let mut out = String::new();
    let mut i: usize = 0;
    while i < v.len()
        invariant
            i <= v@.len(),
            out@ == upper(v@.take(i as int)),
        decreases v@.len() - i,
    {
        let c = v[i];
        out.push(if 'a' <= c && c <= 'z' { (c as u8 - 32) as char } else { c });
        i += 1;
        assert(out@ =~= upper(v@.take(i as int)));
    }
    assert(v@.take(v@.len() as int) =~= v@);
    out
}

// ------------------------------------------------------------------ splitting

/// The pieces between the `c`s, from an index on.
pub open spec fn split_from(s: Seq<char>, c: char, from: int) -> Seq<Seq<char>>
    decreases s.len() - from,
    via split_from_ends
{
    match find_char(s, c, from) {
        Some(i) => seq![s.subrange(from, i)] + split_from(s, c, i + 1),
        None => seq![s.subrange(from, s.len() as int)],
    }
}

#[via_fn]
proof fn split_from_ends(s: Seq<char>, c: char, from: int) {
    if 0 <= from {
        lemma_find_char(s, c, from);
    }
}

/// The pieces between the `c`s.
pub open spec fn split(s: Seq<char>, c: char) -> Seq<Seq<char>> {
    split_from(s, c, 0)
}

/// The pieces between the `c`s.
pub fn split_text(s: &str, c: char) -> (r: Vec<String>)
    ensures
        views(r@) == split(s@, c),
        r@.len() > 0,
{
    let v = to_chars(s);
    let mut out: Vec<String> = Vec::new();
    let mut from: usize = 0;
    let n: usize = v.len();
    assert(views(out@) + split_from(v@, c, 0) =~= split(v@, c));
    loop
        invariant
            v@ == s@,
            n == v@.len(),
            from <= n,
            views(out@) + split_from(v@, c, from as int) == split(v@, c),
        decreases v@.len() - from,
    {
        match find_char_at(&v, c, from) {
            Some(i) => {
                let piece = slice_string(&v, from, i);
                proof {
                    lemma_views_push(out@, piece);
                    assert(views(out@) + split_from(v@, c, from as int) =~= views(out@).push(piece@)
                        + split_from(v@, c, i as int + 1));
                }
                out.push(piece);
                from = i + 1;
            },
            None => {
                let piece = slice_string(&v, from, n);
                proof {
                    lemma_views_push(out@, piece);
                    assert(views(out@) + split_from(v@, c, from as int) =~= views(out@).push(
                        piece@,
                    ));
                }
                out.push(piece);
                return out;
            },
        }
    }
}

/// A first part joins in front.
pub proof fn lemma_join_first(a: Seq<char>, rest: Seq<Seq<char>>, sep: Seq<char>)
    requires
        rest.len() > 0,
    ensures
        join(seq![a] + rest, sep) == a + sep + join(rest, sep),
    decreases rest.len(),
{
    let all = seq![a] + rest;
    assert(all.drop_last() =~= seq![a] + rest.drop_last());
    assert(all.last() == rest.last());
    if rest.len() == 1 {
        assert(all.drop_last() =~= seq![a]);
        assert(join(all.drop_last(), sep) == a);
        assert(join(rest, sep) == rest[0]);
    } else {
        lemma_join_first(a, rest.drop_last(), sep);
        assert(join(rest, sep) == join(rest.drop_last(), sep) + sep + rest.last());
    }
    assert(join(all, sep) == join(all.drop_last(), sep) + sep + all.last());
    assert(join(all, sep) =~= a + sep + join(rest, sep));
}

proof fn lemma_split_from_joins(s: Seq<char>, c: char, from: int)
    requires
        0 <= from <= s.len(),
    ensures
        split_from(s, c, from).len() > 0,
        join(split_from(s, c, from), seq![c]) == s.subrange(from, s.len() as int),
    decreases s.len() - from,
{
    lemma_find_char(s, c, from);
    match find_char(s, c, from) {
        Some(i) => {
            lemma_split_from_joins(s, c, i + 1);
            lemma_join_first(s.subrange(from, i), split_from(s, c, i + 1), seq![c]);
            assert(s.subrange(from, i) + seq![c] + s.subrange(i + 1, s.len() as int)
                =~= s.subrange(from, s.len() as int));
        },
        None => {},
    }
}

/// There is a piece at least.
pub proof fn lemma_split_from_nonempty(s: Seq<char>, c: char, from: int)
    requires
        0 <= from <= s.len(),
    ensures
        split_from(s, c, from).len() > 0,
{
    lemma_split_from_joins(s, c, from);
}

/// Joining the pieces of a text gives the text back.
pub proof fn law_split_pieces_join(s: Seq<char>, c: char)
    ensures
        join(split(s, c), seq![c]) == s,
{
    lemma_split_from_joins(s, c, 0);
    assert(s.subrange(0, s.len() as int) =~= s);
}

// ------------------------------------------------------------------ replacing

/// The text from an index on with every `p` replaced.
pub open spec fn replaced_from(s: Seq<char>, p: Seq<char>, with: Seq<char>, i: int) -> Seq<char>
    decreases
        if i < s.len() {
            s.len() - i
        } else {
            0
        },
{
    if i < 0 || i >= s.len() {
        Seq::empty()
    } else if p.len() > 0 && stands_at(s, i, p) {
        with + replaced_from(s, p, with, i + p.len())
    } else {
        seq![s[i]] + replaced_from(s, p, with, i + 1)
    }
}

/// The text with every `p` replaced.
pub open spec fn replaced(s: Seq<char>, p: Seq<char>, with: Seq<char>) -> Seq<char> {
    replaced_from(s, p, with, 0)
}

/// The text with every `p` replaced.
pub fn replace_text(s: &str, p: &str, with: &str) -> (r: String)
    requires
        p@.len() > 0,
    ensures
        r@ == replaced(s@, p@, with@),
{
    let v = to_chars(s);
    let n: usize = v.len();
    let k: usize = to_chars(p).len();
    let mut out = String::new();
    let mut i: usize = 0;
    assert(out@ + replaced_from(v@, p@, with@, 0) =~= replaced(v@, p@, with@));
    while i < n
        invariant
            v@ == s@,
            n == v@.len(),
            k == p@.len(),
            k > 0,
            i <= n,
            out@ + replaced_from(v@, p@, with@, i as int) == replaced(v@, p@, with@),
        decreases n - i,
    {
        let ghost before = out@;
        let ghost here = replaced_from(v@, p@, with@, i as int);
        if is_at(&v, i, p) {
            out.append(with);
            assert(before + here =~= out@ + replaced_from(v@, p@, with@, i + k));
            i += k;
        } else {
            out.push(v[i]);
            assert(before + here =~= out@ + replaced_from(v@, p@, with@, i as int + 1));
            i += 1;
        }
    }
    assert(out@ + replaced_from(v@, p@, with@, i as int) =~= out@);
    out
}

// ------------------------------------------------------------------ lines

/// The lines one after the other, each with its line end.
pub open spec fn unlines(lines: Seq<Seq<char>>) -> Seq<char>
    decreases lines.len(),
{
    if lines.len() == 0 {
        Seq::empty()
    } else {
        unlines(lines.drop_last()) + lines.last() + seq!['\n']
    }
}

/// None of the lines holds a line end.
pub open spec fn single_lines(lines: Seq<Seq<char>>) -> bool {
    forall|i: int| 0 <= i < lines.len() ==> !(#[trigger] lines[i]).contains('\n')
}

proof fn lemma_unlines_at(lines: Seq<Seq<char>>, k: int)
    requires
        0 <= k < lines.len(),
    ensures
        ({
            let s = unlines(lines);
            let from = unlines(lines.take(k)).len() as int;
            let to = from + lines[k].len();
            &&& unlines(lines.take(k + 1)).len() == to + 1
            &&& to < s.len()
            &&& s.subrange(from, to) == lines[k]
            &&& s[to] == '\n'
        }),
    decreases lines.len(),
{
    let n = lines.len() as int;
    let t = lines.drop_last();
    assert(lines.take(k + 1).drop_last() =~= lines.take(k));
    assert(lines.take(k + 1).last() == lines[k]);
    if k == n - 1 {
        assert(lines.take(k) =~= t);
        assert(lines.take(k + 1) =~= lines);
        let s = unlines(lines);
        let from = unlines(t).len() as int;
        assert(s.subrange(from, from + lines[k].len()) =~= lines[k]);
    } else {
        lemma_unlines_at(t, k);
        assert(t.take(k) =~= lines.take(k));
        assert(t.take(k + 1) =~= lines.take(k + 1));
        let s = unlines(lines);
        let from = unlines(lines.take(k)).len() as int;
        assert(s.subrange(from, from + lines[k].len()) =~= unlines(t).subrange(
            from,
            from + lines[k].len(),
        ));
    }
}

proof fn lemma_find_first(s: Seq<char>, c: char, from: int, to: int)
    requires
        0 <= from <= to < s.len(),
        s[to] == c,
        forall|i: int| from <= i < to ==> s[i] != c,
    ensures
        find_char(s, c, from) == Some(to),
    decreases to - from,
{
    if from < to {
        lemma_find_first(s, c, from + 1, to);
    }
}

proof fn lemma_split_unlines_from(lines: Seq<Seq<char>>, k: int)
    requires
        0 <= k <= lines.len(),
        single_lines(lines),
    ensures
        split_from(unlines(lines), '\n', unlines(lines.take(k)).len() as int) == lines.skip(k).push(
            Seq::empty(),
        ),
    decreases lines.len() - k,
{
    let s = unlines(lines);
    let from = unlines(lines.take(k)).len() as int;
    if k == lines.len() {
        assert(lines.take(k) =~= lines);
        assert(s.subrange(from, s.len() as int) =~= Seq::empty());
        assert(lines.skip(k).push(Seq::empty()) =~= seq![Seq::empty()]);
    } else {
        lemma_unlines_at(lines, k);
        let to = from + lines[k].len();
        assert forall|i: int| from <= i < to implies s[i] != '\n' by {
            assert(s.subrange(from, to)[i - from] == s[i]);
            assert(lines[k][i - from] == s[i]);
            if s[i] == '\n' {
                assert(lines[k].contains('\n'));
            }
        }
        lemma_find_first(s, '\n', from, to);
        lemma_split_unlines_from(lines, k + 1);
        assert(seq![lines[k]] + lines.skip(k + 1).push(Seq::empty()) =~= lines.skip(k).push(
            Seq::empty(),
        ));
    }
}

/// Splitting lines that were put one after the other gives them back, and an empty last piece.
pub proof fn law_lines_split_again(lines: Seq<Seq<char>>)
    requires
        single_lines(lines),
    ensures
        split(unlines(lines), '\n') == lines.push(Seq::empty()),
{
    lemma_split_unlines_from(lines, 0);
    assert(lines.take(0) =~= Seq::empty());
    assert(lines.skip(0) =~= lines);
}

/// None of the pieces holds the character.
pub open spec fn pieces_without(pieces: Seq<Seq<char>>, c: char) -> bool {
    forall|i: int| 0 <= i < pieces.len() ==> !(#[trigger] pieces[i]).contains(c)
}

proof fn lemma_split_joined_after(before: Seq<char>, pieces: Seq<Seq<char>>, c: char)
    requires
        pieces.len() > 0,
        pieces_without(pieces, c),
    ensures
        split_from(before + join(pieces, seq![c]), c, before.len() as int) == pieces,
    decreases pieces.len(),
{
    let s = before + join(pieces, seq![c]);
    let from = before.len() as int;
    let first = pieces[0];
    assert(forall|i: int| 0 <= i < first.len() ==> first[i] != c) by {
        assert forall|i: int| 0 <= i < first.len() implies first[i] != c by {
            if first[i] == c {
                assert(first.contains(c));
            }
        }
    }
    lemma_find_char(s, c, from);
    if pieces.len() == 1 {
        assert(join(pieces, seq![c]) == first);
        assert forall|i: int| from <= i < s.len() implies s[i] != c by {
            assert(s[i] == first[i - from]);
        }
        assert(s.subrange(from, s.len() as int) =~= first);
        assert(split_from(s, c, from) =~= pieces);
    } else {
        let rest = pieces.skip(1);
        assert(seq![first] + rest =~= pieces);
        lemma_join_first(first, rest, seq![c]);
        let to = from + first.len();
        let next = before + first + seq![c];
        assert(next + join(rest, seq![c]) =~= s);
        assert forall|i: int| from <= i < to implies s[i] != c by {
            assert(s[i] == first[i - from]);
        }
        assert(s[to] == c);
        lemma_find_first(s, c, from, to);
        assert forall|i: int| 0 <= i < rest.len() implies !(#[trigger] rest[i]).contains(c) by {
            assert(rest[i] == pieces[i + 1]);
        }
        lemma_split_joined_after(next, rest, c);
        assert(s.subrange(from, to) =~= first);
        assert(split_from(s, c, from) =~= seq![first] + rest);
    }
}

/// Splitting joined pieces, none of which holds the separator, gives the pieces back.
pub proof fn law_joined_pieces_split(pieces: Seq<Seq<char>>, c: char)
    requires
        pieces.len() > 0,
        pieces_without(pieces, c),
    ensures
        split(join(pieces, seq![c]), c) == pieces,
{
    lemma_split_joined_after(Seq::empty(), pieces, c);
    assert(Seq::<char>::empty() + join(pieces, seq![c]) =~= join(pieces, seq![c]));
}

proof fn lemma_split_from_without(s: Seq<char>, c: char, from: int)
    requires
        0 <= from <= s.len(),
    ensures
        pieces_without(split_from(s, c, from), c),
    decreases s.len() - from,
{
    lemma_find_char(s, c, from);
    match find_char(s, c, from) {
        Some(i) => {
            lemma_split_from_without(s, c, i + 1);
            let rest = split_from(s, c, i + 1);
            let all = split_from(s, c, from);
            assert forall|k: int| 0 <= k < all.len() implies !(#[trigger] all[k]).contains(c) by {
                if k > 0 {
                    assert(all[k] == rest[k - 1]);
                }
            }
        },
        None => {},
    }
}

/// No piece of a split text holds the separator.
pub proof fn lemma_split_without(s: Seq<char>, c: char)
    ensures
        pieces_without(split(s, c), c),
{
    lemma_split_from_without(s, c, 0);
}

/// Trimming twice is trimming once, and exactly the texts of white space alone become empty.
pub proof fn law_trimming_once_is_enough(kind: Space, s: Seq<char>)
    ensures
        trim(kind, trim(kind, s)) == trim(kind, s),
        trim(kind, s).len() == 0 <==> all_space(kind, s),
{
    let a = trim_start(kind, s);
    let b = trim_end(kind, a);
    lemma_trim_start(kind, s);
    lemma_trim_end(kind, a);
    if b.len() > 0 {
        assert(b[0] == a[0]);
        let n = s.len() - a.len();
        assert(s[n] == a[0]);
    } else {
        assert forall|i: int| 0 <= i < s.len() implies is_space(kind, #[trigger] s[i]) by {
            let n = s.len() - a.len();
            if i < n {
                assert(s.take(n)[i] == s[i]);
            } else {
                assert(a.skip(0)[i - n] == s[i]);
            }
        }
    }
}

} // verus!
