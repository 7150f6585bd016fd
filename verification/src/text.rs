//! Text as sequences of characters: the searches, cuts and rewrites that the rest of the
//! library states its rules with.
use vstd::prelude::*;
use vstd::string::*;

verus! {

/// `String::push` appends one character at the end.
pub assume_specification[ String::push ](s: &mut String, c: char)
    ensures
        final(s)@ == old(s)@.push(c),
;

/// The characters of each text of a list.
pub open spec fn views(list: Seq<String>) -> Seq<Seq<char>> {
    Seq::new(list.len(), |i: int| list[i]@)
}

/// The characters of an optional text.
pub open spec fn opt(value: Option<String>) -> Option<Seq<char>> {
    match value {
        Some(text) => Some(text@),
        None => None,
    }
}

/// The characters of an optional borrowed text.
pub open spec fn opt_str(value: Option<&str>) -> Option<Seq<char>> {
    match value {
        Some(text) => Some(text@),
        None => None,
    }
}

/// The length of a text in UTF-8 bytes.
pub open spec fn byte_len(s: Seq<char>) -> nat {
    vstd::utf8::encode_utf8(s).len()
}

/// The characters of `s`, in order.
pub fn chars_of(s: &str) -> (r: Vec<char>)
    ensures
        r@ == s@,
{
    let mut r: Vec<char> = Vec::new();
    for c in it: s.chars()
        invariant
            it.seq() == s@,
            r@ == it.seq().take(it.index()),
    {
        r.push(c);
    }
    assert(s@.take(s@.len() as int) =~= s@);
    r
}

/// The text made of the characters of `chars` from `from` up to `to`.
pub fn text_between(chars: &Vec<char>, from: usize, to: usize) -> (r: String)
    requires
        from <= to <= chars@.len(),
    ensures
        r@ == chars@.subrange(from as int, to as int),
{
    let mut r: String = String::new();
    let mut i: usize = from;
    while i < to
        invariant
            from <= i <= to <= chars@.len(),
            r@ == chars@.subrange(from as int, i as int),
        decreases to - i,
    {
        r.push(chars[i]);
        i = i + 1;
        assert(chars@.subrange(from as int, i as int) =~= chars@.subrange(
            from as int,
            i - 1,
        ).push(chars@[i - 1]));
    }
    r
}

/// The text made of `chars`.
pub fn text_of(chars: &Vec<char>) -> (r: String)
    ensures
        r@ == chars@,
{
    assert(chars@.subrange(0, chars@.len() as int) =~= chars@);
    text_between(chars, 0, chars.len())
}

/// Whether two texts hold the same characters.
pub fn same(a: &str, b: &str) -> (r: bool)
    ensures
        r == (a@ == b@),
{
    a.to_owned() == b.to_owned()
}

/// Whether an optional text is present and holds the same characters as `b`.
pub fn is_text(a: &Option<String>, b: &str) -> (r: bool)
    ensures
        r == (opt(*a) == Some(b@)),
{
    match a {
        Some(text) => same(text.as_str(), b),
        None => false,
    }
}

/// The length of `s` in UTF-8 bytes.
pub fn bytes_of(s: &str) -> (r: usize)
    ensures
        r == byte_len(s@),
{
    s.as_bytes().len()
}

/// Whether `list` holds a text with the characters of `s`.
pub fn holds(list: &Vec<String>, s: &str) -> (r: bool)
    ensures
        r == views(list@).contains(s@),
{
    let mut i: usize = 0;
    while i < list.len()
        invariant
            i <= list@.len(),
            forall|j: int| 0 <= j < i ==> list@[j]@ != s@,
        decreases list@.len() - i,
    {
        if same(list[i].as_str(), s) {
            assert(views(list@)[i as int] == s@);
            return true;
        }
        i = i + 1;
    }
    assert forall|j: int| 0 <= j < views(list@).len() implies views(list@)[j] != s@ by {}
    false
}

/// A copy of a list of texts.
pub fn copy_list(list: &Vec<String>) -> (r: Vec<String>)
    ensures
        views(r@) == views(list@),
        r@ == list@,
{
    let mut r: Vec<String> = Vec::new();
    let mut i: usize = 0;
    while i < list.len()
        invariant
            i <= list@.len(),
            r@ == list@.take(i as int),
        decreases list@.len() - i,
    {
        r.push(list[i].clone());
        i = i + 1;
        assert(list@.take(i as int) =~= list@.take(i - 1).push(list@[i - 1]));
    }
    assert(list@.take(list@.len() as int) =~= list@);
    r
}

/// A copy of an optional text.
pub fn copy_opt(value: &Option<String>) -> (r: Option<String>)
    ensures
        opt(r) == opt(*value),
        r == *value,
{
    match value {
        Some(text) => Some(text.clone()),
        None => None,
    }
}

/// Whether a character has the Unicode property White_Space.
pub open spec fn white_space(c: char) -> bool {
    let n = c as u32;
    ||| 0x9 <= n <= 0xd
    ||| n == 0x20
    ||| n == 0x85
    ||| n == 0xa0
    ||| n == 0x1680
    ||| 0x2000 <= n <= 0x200a
    ||| n == 0x2028
    ||| n == 0x2029
    ||| n == 0x202f
    ||| n == 0x205f
    ||| n == 0x3000
}

/// Whether a character has the Unicode property White_Space.
pub fn is_white_space(c: char) -> (r: bool)
    ensures
        r == white_space(c),
{
    let n: u32 = c as u32;
    (0x9 <= n && n <= 0xd) || n == 0x20 || n == 0x85 || n == 0xa0 || n == 0x1680 || (0x2000 <= n
        && n <= 0x200a) || n == 0x2028 || n == 0x2029 || n == 0x202f || n == 0x205f || n == 0x3000
}

/// `s` without the white space at its start.
pub open spec fn trimmed_left(s: Seq<char>) -> Seq<char>
    decreases s.len(),
{
    if s.len() > 0 && white_space(s[0]) {
        trimmed_left(s.drop_first())
    } else {
        s
    }
}

/// `s` without the white space at its end.
pub open spec fn trimmed_right(s: Seq<char>) -> Seq<char>
    decreases s.len(),
{
    if s.len() > 0 && white_space(s.last()) {
        trimmed_right(s.drop_last())
    } else {
        s
    }
}

/// `s` without the white space at its two ends.
pub open spec fn trimmed(s: Seq<char>) -> Seq<char> {
    trimmed_right(trimmed_left(s))
}

/// `s` without the white space at its start.
pub fn trim_left(s: &str) -> (r: String)
    ensures
        r@ == trimmed_left(s@),
{
    let chars: Vec<char> = chars_of(s);
    let mut from: usize = 0;
    assert(s@ =~= s@.skip(0));
    while from < chars.len() && is_white_space(chars[from])
        invariant
            from <= chars@.len(),
            chars@ == s@,
            trimmed_left(s@) == trimmed_left(s@.skip(from as int)),
        decreases chars@.len() - from,
    {
        assert(s@.skip(from as int).drop_first() =~= s@.skip(from + 1));
        from = from + 1;
    }
    assert(s@.skip(from as int) =~= s@.subrange(from as int, s@.len() as int));
    text_between(&chars, from, chars.len())
}

/// `s` without the white space at its end.
pub fn trim_right(s: &str) -> (r: String)
    ensures
        r@ == trimmed_right(s@),
{
    let chars: Vec<char> = chars_of(s);
    let mut to: usize = chars.len();
    assert(s@ =~= s@.subrange(0, s@.len() as int));
    while to > 0 && is_white_space(chars[to - 1])
        invariant
            to <= chars@.len(),
            chars@ == s@,
            trimmed_right(s@) == trimmed_right(s@.subrange(0, to as int)),
        decreases to,
    {
        assert(s@.subrange(0, to as int).drop_last() =~= s@.subrange(0, to - 1));
        to = to - 1;
    }
    text_between(&chars, 0, to)
}

/// `s` without the white space at its two ends.
pub fn trim(s: &str) -> (r: String)
    ensures
        r@ == trimmed(s@),
{
    trim_right(trim_left(s).as_str())
}

/// `s` without the characters `c` at its end.
pub open spec fn trimmed_end(s: Seq<char>, c: char) -> Seq<char>
    decreases s.len(),
{
    if s.len() > 0 && s.last() == c {
        trimmed_end(s.drop_last(), c)
    } else {
        s
    }
}

/// `s` without the characters `c` at its end.
pub fn trim_end(s: &str, c: char) -> (r: String)
    ensures
        r@ == trimmed_end(s@, c),
{
    let chars: Vec<char> = chars_of(s);
    let mut to: usize = chars.len();
    assert(s@ =~= s@.subrange(0, s@.len() as int));
    while to > 0 && chars[to - 1] == c
        invariant
            to <= chars@.len(),
            chars@ == s@,
            trimmed_end(s@, c) == trimmed_end(s@.subrange(0, to as int), c),
        decreases to,
    {
        assert(s@.subrange(0, to as int).drop_last() =~= s@.subrange(0, to - 1));
        to = to - 1;
    }
    text_between(&chars, 0, to)
}

/// Whether a character is a square bracket.
pub open spec fn bracket(c: char) -> bool {
    c == '[' || c == ']'
}

/// `s` without the square brackets at its start.
pub open spec fn unbracketed_left(s: Seq<char>) -> Seq<char>
    decreases s.len(),
{
    if s.len() > 0 && bracket(s[0]) {
        unbracketed_left(s.drop_first())
    } else {
        s
    }
}

/// `s` without the square brackets at its end.
pub open spec fn unbracketed_right(s: Seq<char>) -> Seq<char>
    decreases s.len(),
{
    if s.len() > 0 && bracket(s.last()) {
        unbracketed_right(s.drop_last())
    } else {
        s
    }
}

/// `s` without the square brackets at its two ends.
pub open spec fn unbracketed(s: Seq<char>) -> Seq<char> {
    unbracketed_right(unbracketed_left(s))
}

/// `s` without the square brackets at its two ends.
pub fn unbracket(s: &str) -> (r: String)
    ensures
        r@ == unbracketed(s@),
{
    let chars: Vec<char> = chars_of(s);
    let mut from: usize = 0;
    assert(s@ =~= s@.skip(0));
    while from < chars.len() && (chars[from] == '[' || chars[from] == ']')
        invariant
            from <= chars@.len(),
            chars@ == s@,
            unbracketed_left(s@) == unbracketed_left(s@.skip(from as int)),
        decreases chars@.len() - from,
    {
        assert(s@.skip(from as int).drop_first() =~= s@.skip(from + 1));
        from = from + 1;
    }
    let ghost left = s@.skip(from as int);
    let mut to: usize = chars.len();
    assert(left =~= s@.subrange(from as int, to as int));
    while to > from && (chars[to - 1] == '[' || chars[to - 1] == ']')
        invariant
            from <= to <= chars@.len(),
            chars@ == s@,
            unbracketed_right(left) == unbracketed_right(s@.subrange(from as int, to as int)),
        decreases to - from,
    {
        assert(s@.subrange(from as int, to as int).drop_last() =~= s@.subrange(
            from as int,
            to - 1,
        ));
        to = to - 1;
    }
    text_between(&chars, from, to)
}

/// A character with the letters A to Z in lower case.
pub open spec fn lower_char(c: char) -> char {
    if 'A' <= c <= 'Z' {
        (c as u32 + 32) as char
    } else {
        c
    }
}

/// `s` with the letters A to Z in lower case.
pub open spec fn lowered(s: Seq<char>) -> Seq<char> {
    Seq::new(s.len(), |i: int| lower_char(s[i]))
}

fn to_lower_char(c: char) -> (r: char)
    ensures
        r == lower_char(c),
{
    if 'A' <= c && c <= 'Z' {
        let code: u8 = (c as u32) as u8;
        (code + 32) as char
    } else {
        c
    }
}

/// `s` with the letters A to Z in lower case.
pub fn lower(s: &str) -> (r: String)
    ensures
        r@ == lowered(s@),
{
    let chars: Vec<char> = chars_of(s);
    let mut r: String = String::new();
    let mut i: usize = 0;
    while i < chars.len()
        invariant
            i <= chars@.len(),
            chars@ == s@,
            r@ == lowered(s@).take(i as int),
        decreases chars@.len() - i,
    {
        r.push(to_lower_char(chars[i]));
        i = i + 1;
        assert(lowered(s@).take(i as int) =~= lowered(s@).take(i - 1).push(lowered(s@)[i - 1]));
    }
    assert(lowered(s@).take(s@.len() as int) =~= lowered(s@));
    r
}

/// Whether `s` begins with `p`.
pub open spec fn has_prefix(s: Seq<char>, p: Seq<char>) -> bool {
    p.len() <= s.len() && s.take(p.len() as int) == p
}

/// Whether `s` ends with `p`.
pub open spec fn has_suffix(s: Seq<char>, p: Seq<char>) -> bool {
    p.len() <= s.len() && s.skip(s.len() - p.len()) == p
}

/// Whether `p` stands in `s` from position `i` on.
pub open spec fn occurs_at(s: Seq<char>, p: Seq<char>, i: int) -> bool {
    0 <= i && i + p.len() <= s.len() && s.subrange(i, i + p.len()) == p
}

/// Whether `p` stands somewhere in `s`.
pub open spec fn contains(s: Seq<char>, p: Seq<char>) -> bool {
    exists|i: int| occurs_at(s, p, i)
}

/// The first position, from `i` on, at which `p` stands in `s`.
pub open spec fn first_from(s: Seq<char>, p: Seq<char>, i: int) -> Option<int>
    decreases s.len() + 1 - i,
{
    if i < 0 || i + p.len() > s.len() {
        None
    } else if occurs_at(s, p, i) {
        Some(i)
    } else {
        first_from(s, p, i + 1)
    }
}

/// A search from the start finds exactly what the text contains, and the first of it.
pub proof fn lemma_first_from(s: Seq<char>, p: Seq<char>, i: int)
    requires
        0 <= i,
    ensures
        match first_from(s, p, i) {
            Some(k) => i <= k && occurs_at(s, p, k) && forall|j: int|
                i <= j < k ==> !occurs_at(s, p, j),
            None => forall|j: int| i <= j ==> !occurs_at(s, p, j),
        },
    decreases s.len() + 1 - i,
{
    if i + p.len() <= s.len() && !occurs_at(s, p, i) {
        lemma_first_from(s, p, i + 1);
    }
}

fn stands_at(s: &Vec<char>, p: &Vec<char>, i: usize) -> (r: bool)
    requires
        i <= s@.len(),
    ensures
        r == occurs_at(s@, p@, i as int),
{
    if p.len() > s.len() - i {
        return false;
    }
    let mut j: usize = 0;
    while j < p.len()
        invariant
            j <= p@.len(),
            s.len() == s@.len(),
            i + p@.len() <= s@.len(),
            forall|k: int| 0 <= k < j ==> s@[i + k] == p@[k],
        decreases p@.len() - j,
    {
        if s[i + j] != p[j] {
            assert(s@.subrange(i as int, i + p@.len())[j as int] != p@[j as int]);
            return false;
        }
        j = j + 1;
    }
    assert(s@.subrange(i as int, i + p@.len()) =~= p@);
    true
}

/// The first position at which `p` stands in `s`.
pub fn find(s: &Vec<char>, p: &Vec<char>) -> (r: Option<usize>)
    ensures
        match r {
            Some(k) => first_from(s@, p@, 0) == Some(k as int),
            None => first_from(s@, p@, 0) is None,
        },
        r is Some <==> contains(s@, p@),
{
    let mut i: usize = 0;
    proof {
        lemma_first_from(s@, p@, 0);
    }
    while i <= s.len()
        invariant
            i <= s@.len() + 1,
            first_from(s@, p@, 0) == first_from(s@, p@, i as int),
            match first_from(s@, p@, 0) {
                Some(k) => occurs_at(s@, p@, k),
                None => forall|j: int| 0 <= j ==> !occurs_at(s@, p@, j),
            },
        decreases s@.len() + 1 - i,
    {
        if stands_at(s, p, i) {
            return Some(i);
        }
        if i == s.len() {
            assert(first_from(s@, p@, i + 1) is None);
            return None;
        }
        i = i + 1;
    }
    None
}

/// Whether `p` stands somewhere in `s`.
pub fn has(s: &str, p: &str) -> (r: bool)
    ensures
        r == contains(s@, p@),
{
    find(&chars_of(s), &chars_of(p)).is_some()
}

/// Whether the character `c` stands somewhere in `s`.
pub fn has_char(s: &str, c: char) -> (r: bool)
    ensures
        r == s@.contains(c),
{
    let chars: Vec<char> = chars_of(s);
    let mut i: usize = 0;
    while i < chars.len()
        invariant
            i <= chars@.len(),
            chars@ == s@,
            forall|j: int| 0 <= j < i ==> s@[j] != c,
        decreases chars@.len() - i,
    {
        if chars[i] == c {
            return true;
        }
        i = i + 1;
    }
    false
}

/// Whether `s` begins with `p`.
pub fn starts_with(s: &str, p: &str) -> (r: bool)
    ensures
        r == has_prefix(s@, p@),
{
    let r = stands_at(&chars_of(s), &chars_of(p), 0);
    assert(p@.len() <= s@.len() ==> s@.subrange(0, p@.len() as int) =~= s@.take(p@.len() as int));
    r
}

/// Whether `s` ends with `p`.
pub fn ends_with(s: &str, p: &str) -> (r: bool)
    ensures
        r == has_suffix(s@, p@),
{
    let text: Vec<char> = chars_of(s);
    let part: Vec<char> = chars_of(p);
    if part.len() > text.len() {
        return false;
    }
    assert(s@.subrange(s@.len() - p@.len(), s@.len() as int) =~= s@.skip(s@.len() - p@.len()));
    stands_at(&text, &part, text.len() - part.len())
}

/// What follows `p` in a text that begins with it.
pub open spec fn after_prefix(s: Seq<char>, p: Seq<char>) -> Option<Seq<char>> {
    if has_prefix(s, p) {
        Some(s.skip(p.len() as int))
    } else {
        None
    }
}

/// What precedes `p` in a text that ends with it.
pub open spec fn before_suffix(s: Seq<char>, p: Seq<char>) -> Option<Seq<char>> {
    if has_suffix(s, p) {
        Some(s.take(s.len() - p.len()))
    } else {
        None
    }
}

/// What follows `p` in a text that begins with it.
pub fn strip_prefix(s: &str, p: &str) -> (r: Option<String>)
    ensures
        opt(r) == after_prefix(s@, p@),
{
    if starts_with(s, p) {
        let text: Vec<char> = chars_of(s);
        let from: usize = chars_of(p).len();
        assert(s@.subrange(from as int, s@.len() as int) =~= s@.skip(p@.len() as int));
        Some(text_between(&text, from, text.len()))
    } else {
        None
    }
}

/// What precedes `p` in a text that ends with it.
pub fn strip_suffix(s: &str, p: &str) -> (r: Option<String>)
    ensures
        opt(r) == before_suffix(s@, p@),
{
    if ends_with(s, p) {
        let text: Vec<char> = chars_of(s);
        let cut: usize = chars_of(p).len();
        assert(s@.subrange(0, s@.len() - p@.len()) =~= s@.take(s@.len() - p@.len()));
        Some(text_between(&text, 0, text.len() - cut))
    } else {
        None
    }
}

/// The first position of `c` in `s`, or the length of `s`.
pub open spec fn position(s: Seq<char>, c: char) -> int
    decreases s.len(),
{
    if s.len() == 0 || s[0] == c {
        0
    } else {
        1 + position(s.drop_first(), c)
    }
}

/// The two sides of the first `c` in `s`.
pub open spec fn cut_at(s: Seq<char>, c: char) -> Option<(Seq<char>, Seq<char>)> {
    if s.contains(c) {
        Some((s.take(position(s, c)), s.skip(position(s, c) + 1)))
    } else {
        None
    }
}

/// No `c` stands before the first one.
pub proof fn lemma_first_position(s: Seq<char>, c: char)
    ensures
        0 <= position(s, c) <= s.len(),
        forall|j: int| 0 <= j < position(s, c) ==> s[j] != c,
    decreases s.len(),
{
    if s.len() > 0 && s[0] != c {
        let rest = s.drop_first();
        lemma_first_position(rest, c);
        assert forall|j: int| 0 <= j < position(s, c) implies s[j] != c by {
            if j > 0 {
                assert(s[j] == rest[j - 1]);
            }
        }
    }
}

/// The position of the first `c` is the one that no earlier `c` precedes.
pub proof fn lemma_position(s: Seq<char>, c: char, k: int)
    requires
        0 <= k <= s.len(),
        forall|j: int| 0 <= j < k ==> s[j] != c,
        k < s.len() ==> s[k] == c,
    ensures
        position(s, c) == k,
    decreases s.len(),
{
    if k > 0 {
        assert(s[0] != c);
        let rest = s.drop_first();
        assert forall|j: int| 0 <= j < k - 1 implies rest[j] != c by {
            assert(rest[j] == s[j + 1]);
        }
        lemma_position(rest, c, k - 1);
    }
}

/// A text with a `c` in it is its two sides with the `c` between them.
pub proof fn lemma_cut(s: Seq<char>, c: char)
    requires
        s.contains(c),
    ensures
        0 <= position(s, c) < s.len(),
        s[position(s, c)] == c,
        s == s.take(position(s, c)) + seq![c] + s.skip(position(s, c) + 1),
    decreases s.len(),
{
    if s[0] != c {
        let rest = s.drop_first();
        let i = choose|i: int| 0 <= i < s.len() && s[i] == c;
        assert(rest[i - 1] == c);
        lemma_cut(rest, c);
    }
    assert(s =~= s.take(position(s, c)) + seq![c] + s.skip(position(s, c) + 1));
}

/// The two sides of the first `c` in `s`.
pub fn split_once(s: &str, c: char) -> (r: Option<(String, String)>)
    ensures
        match r {
            Some((head, tail)) => cut_at(s@, c) == Some((head@, tail@)),
            None => cut_at(s@, c) is None,
        },
{
    let text: Vec<char> = chars_of(s);
    let mut i: usize = 0;
    while i < text.len()
        invariant
            i <= text@.len(),
            text@ == s@,
            forall|j: int| 0 <= j < i ==> s@[j] != c,
        decreases text@.len() - i,
    {
        if text[i] == c {
            proof {
                lemma_position(s@, c, i as int);
                assert(s@.subrange(0, i as int) =~= s@.take(i as int));
                assert(s@.subrange(i + 1, s@.len() as int) =~= s@.skip(i + 1));
            }
            return Some((text_between(&text, 0, i), text_between(&text, i + 1, text.len())));
        }
        i = i + 1;
    }
    None
}

/// The parts of `s` between the characters `c`.
pub open spec fn split(s: Seq<char>, c: char) -> Seq<Seq<char>>
    decreases s.len(),
{
    if s.len() == 0 {
        seq![Seq::<char>::empty()]
    } else {
        let parts = split(s.drop_last(), c);
        if s.last() == c {
            parts.push(Seq::empty())
        } else {
            parts.update(parts.len() - 1, parts.last().push(s.last()))
        }
    }
}

/// A split has at least one part.
pub proof fn lemma_split_len(s: Seq<char>, c: char)
    ensures
        split(s, c).len() >= 1,
    decreases s.len(),
{
    if s.len() > 0 {
        lemma_split_len(s.drop_last(), c);
    }
}

/// The parts of `s` between the characters `c`.
pub fn split_on(s: &str, c: char) -> (r: Vec<String>)
    ensures
        views(r@) == split(s@, c),
{
    let text: Vec<char> = chars_of(s);
    let mut parts: Vec<String> = Vec::new();
    let mut part: String = String::new();
    let mut i: usize = 0;
    assert(s@.take(0) =~= Seq::<char>::empty());
    assert(views(parts@).push(part@) =~= split(s@.take(0), c));
    while i < text.len()
        invariant
            i <= text@.len(),
            text@ == s@,
            views(parts@).push(part@) == split(s@.take(i as int), c),
        decreases text@.len() - i,
    {
        let ghost before = views(parts@);
        let ghost last = part@;
        assert(s@.take(i + 1).drop_last() =~= s@.take(i as int));
        if text[i] == c {
            let done = part;
            parts.push(done);
            part = String::new();
            assert(views(parts@) =~= before.push(last));
            assert(views(parts@).push(part@) =~= split(s@.take(i + 1), c));
        } else {
            part.push(text[i]);
            assert(before.push(last).update(before.len() as int, last.push(s@[i as int]))
                =~= before.push(part@));
        }
        i = i + 1;
    }
    assert(s@.take(s@.len() as int) =~= s@);
    let ghost before = views(parts@);
    parts.push(part);
    assert(views(parts@) =~= before.push(parts@.last()@));
    parts
}

/// `s` with `to` between its characters and at its two ends.
pub open spec fn woven(s: Seq<char>, to: Seq<char>) -> Seq<char>
    decreases s.len(),
{
    if s.len() == 0 {
        to
    } else {
        to + seq![s[0]] + woven(s.drop_first(), to)
    }
}

/// `s` with every `from`, met from left to right and not overlapping, replaced by `to`.
pub open spec fn replaced(s: Seq<char>, from: Seq<char>, to: Seq<char>) -> Seq<char>
    decreases s.len(),
{
    if from.len() == 0 {
        woven(s, to)
    } else if s.len() == 0 {
        s
    } else if has_prefix(s, from) {
        to + replaced(s.skip(from.len() as int), from, to)
    } else {
        seq![s[0]] + replaced(s.drop_first(), from, to)
    }
}

/// `s` with every `from`, met from left to right and not overlapping, replaced by `to`.
pub fn replace(s: &str, from: &str, to: &str) -> (r: String)
    ensures
        r@ == replaced(s@, from@, to@),
{
    let text: Vec<char> = chars_of(s);
    let part: Vec<char> = chars_of(from);
    let mut r: String = String::new();
    let mut i: usize = 0;
    assert(s@.skip(0) =~= s@);
    if part.len() == 0 {
        assert(r@ + woven(s@.skip(0), to@) =~= woven(s@, to@));
        while i < text.len()
            invariant
                i <= text@.len(),
                text@ == s@,
                r@ + woven(s@.skip(i as int), to@) == woven(s@, to@),
            decreases text@.len() - i,
        {
            let ghost done = r@;
            assert(s@.skip(i as int).drop_first() =~= s@.skip(i + 1));
            r.append(to);
            r.push(text[i]);
            assert(done + (to@ + seq![s@[i as int]] + woven(s@.skip(i + 1), to@)) =~= r@ + woven(
                s@.skip(i + 1),
                to@,
            ));
            i = i + 1;
        }
        r.append(to);
        return r;
    }
    assert(r@ + replaced(s@.skip(0), from@, to@) =~= replaced(s@, from@, to@));
    while i < text.len()
        invariant
            i <= text@.len(),
            text@ == s@,
            part@ == from@,
            part@.len() > 0,
            r@ + replaced(s@.skip(i as int), from@, to@) == replaced(s@, from@, to@),
        decreases text@.len() - i,
    {
        let ghost done = r@;
        let ghost rest = s@.skip(i as int);
        proof {
            if i + from@.len() <= s@.len() {
                assert(rest.take(from@.len() as int) =~= s@.subrange(i as int, i + from@.len()));
                assert(rest.skip(from@.len() as int) =~= s@.skip(i + from@.len()));
            }
            assert(rest.drop_first() =~= s@.skip(i + 1));
        }
        if stands_at(&text, &part, i) {
            r.append(to);
            i = i + part.len();
            assert(done + (to@ + replaced(s@.skip(i as int), from@, to@)) =~= r@ + replaced(
                s@.skip(i as int),
                from@,
                to@,
            ));
        } else {
            r.push(text[i]);
            i = i + 1;
            assert(done + (seq![s@[i - 1]] + replaced(s@.skip(i as int), from@, to@)) =~= r@
                + replaced(s@.skip(i as int), from@, to@));
        }
    }
    assert(s@.skip(i as int) =~= Seq::empty());
    assert(r@ + Seq::<char>::empty() =~= r@);
    r
}

/// The first `n` characters of `s`, or all of it where it is shorter.
pub open spec fn shortened(s: Seq<char>, n: int) -> Seq<char> {
    if s.len() <= n {
        s
    } else {
        s.take(n)
    }
}

/// The first `n` characters of `s`, or all of it where it is shorter.
pub fn shorten(s: &str, n: usize) -> (r: String)
    ensures
        r@ == shortened(s@, n as int),
{
    let text: Vec<char> = chars_of(s);
    if text.len() <= n {
        s.to_owned()
    } else {
        assert(s@.subrange(0, n as int) =~= s@.take(n as int));
        text_between(&text, 0, n)
    }
}

/// The concatenation of two texts.
pub fn join2(a: &str, b: &str) -> (r: String)
    ensures
        r@ == a@ + b@,
{
    let mut r: String = a.to_owned();
    r.append(b);
    r
}

/// The concatenation of three texts.
pub fn join3(a: &str, b: &str, c: &str) -> (r: String)
    ensures
        r@ == a@ + b@ + c@,
{
    let mut r: String = a.to_owned();
    r.append(b);
    r.append(c);
    r
}

/// Whether two texts have no character in common.
pub open spec fn disjoint(a: Seq<char>, b: Seq<char>) -> bool {
    forall|i: int, j: int| 0 <= i < a.len() && 0 <= j < b.len() ==> #[trigger] a[i] != #[trigger] b[j]
}

/// What begins a rewritten text, and shares no character with what was put in, began the text.
proof fn lemma_replaced_prefix(s: Seq<char>, from: Seq<char>, to: Seq<char>, o: Seq<char>)
    requires
        from.len() > 0,
        to.len() > 0,
        disjoint(o, to),
        has_prefix(replaced(s, from, to), o),
    ensures
        has_prefix(s, o),
    decreases s.len(),
{
    let r = replaced(s, from, to);
    if o.len() == 0 {
        assert(s.take(0) =~= o);
    } else {
        assert(r.take(o.len() as int)[0] == o[0]);
        assert(r[0] == o[0]);
        if s.len() > 0 {
            if has_prefix(s, from) {
                assert(r[0] == to[0]);
                assert(false);
            } else {
                let rest = s.drop_first();
                let tail = o.drop_first();
                assert(r[0] == s[0]);
                assert(r.drop_first() =~= replaced(rest, from, to));
                assert(r.drop_first().take(tail.len() as int) =~= r.take(o.len() as int).drop_first());
                assert forall|i: int, j: int|
                    0 <= i < tail.len() && 0 <= j < to.len() implies #[trigger] tail[i]
                    != #[trigger] to[j] by {
                    assert(o[i + 1] != to[j]);
                }
                lemma_replaced_prefix(rest, from, to, tail);
                assert(s.take(o.len() as int) =~= seq![s[0]] + rest.take(tail.len() as int));
                assert(o =~= seq![o[0]] + tail);
            }
        }
    }
}

/// What stands in a rewritten text, and shares no character with what was put in, stood in the
/// text before, and is not what was replaced.
pub proof fn lemma_replaced_occurrence(
    s: Seq<char>,
    from: Seq<char>,
    to: Seq<char>,
    o: Seq<char>,
    i: int,
)
    requires
        from.len() > 0,
        to.len() > 0,
        o.len() > 0,
        disjoint(o, to),
        occurs_at(replaced(s, from, to), o, i),
    ensures
        contains(s, o),
        o != from,
    decreases s.len(),
{
    let r = replaced(s, from, to);
    assert(r.subrange(i, i + o.len())[0] == o[0]);
    assert(r[i] == o[0]);
    if s.len() > 0 {
        if has_prefix(s, from) {
            if i < to.len() {
                assert(r[i] == to[i]);
                assert(false);
            }
            let rest = s.skip(from.len() as int);
            let tail = replaced(rest, from, to);
            assert(tail.subrange(i - to.len(), i - to.len() + o.len()) =~= r.subrange(
                i,
                i + o.len(),
            ));
            lemma_replaced_occurrence(rest, from, to, o, i - to.len());
            let j = choose|j: int| occurs_at(rest, o, j);
            assert(s.subrange(j + from.len(), j + from.len() + o.len()) =~= rest.subrange(
                j,
                j + o.len(),
            ));
            assert(occurs_at(s, o, j + from.len()));
        } else {
            let rest = s.drop_first();
            let tail = replaced(rest, from, to);
            assert(r.drop_first() =~= tail);
            if i > 0 {
                assert(tail.subrange(i - 1, i - 1 + o.len()) =~= r.subrange(i, i + o.len()));
                lemma_replaced_occurrence(rest, from, to, o, i - 1);
                let j = choose|j: int| occurs_at(rest, o, j);
                assert(s.subrange(j + 1, j + 1 + o.len()) =~= rest.subrange(j, j + o.len()));
                assert(occurs_at(s, o, j + 1));
            } else {
                assert(r.take(o.len() as int) =~= r.subrange(0, o.len() as int));
                lemma_replaced_prefix(s, from, to, o);
                assert(s.subrange(0, o.len() as int) =~= s.take(o.len() as int));
                assert(occurs_at(s, o, 0));
            }
        }
    }
}

/// A text from which every `from` is replaced by a mark that shares no character with it holds
/// `from` no more; and the mark brings back nothing else that was absent.
pub proof fn replacing_removes(s: Seq<char>, from: Seq<char>, to: Seq<char>, o: Seq<char>)
    requires
        from.len() > 0,
        to.len() > 0,
        o.len() > 0,
        disjoint(o, to),
        o == from || !contains(s, o),
    ensures
        !contains(replaced(s, from, to), o),
{
    if contains(replaced(s, from, to), o) {
        let i = choose|i: int| occurs_at(replaced(s, from, to), o, i);
        lemma_replaced_occurrence(s, from, to, o, i);
    }
}

/// The start of a text holds nothing that the text does not hold.
pub proof fn lemma_shortened_contains(s: Seq<char>, n: int, o: Seq<char>)
    requires
        0 <= n,
        !contains(s, o),
    ensures
        !contains(shortened(s, n), o),
{
    if contains(shortened(s, n), o) {
        let i = choose|i: int| occurs_at(shortened(s, n), o, i);
        assert(s.subrange(i, i + o.len()) =~= shortened(s, n).subrange(i, i + o.len()));
        assert(occurs_at(s, o, i));
    }
}

/// Cutting white space off the ends of a text puts nothing into it.
pub proof fn lemma_trimmed_contains(s: Seq<char>, o: Seq<char>)
    requires
        !contains(s, o),
    ensures
        !contains(trimmed(s), o),
{
    lemma_trimmed_left_contains(s, o);
    lemma_trimmed_right_contains(trimmed_left(s), o);
}

proof fn lemma_trimmed_left_contains(s: Seq<char>, o: Seq<char>)
    requires
        !contains(s, o),
    ensures
        !contains(trimmed_left(s), o),
    decreases s.len(),
{
    if s.len() > 0 && white_space(s[0]) {
        if contains(s.drop_first(), o) {
            let i = choose|i: int| occurs_at(s.drop_first(), o, i);
            assert(s.subrange(i + 1, i + 1 + o.len()) =~= s.drop_first().subrange(i, i + o.len()));
            assert(occurs_at(s, o, i + 1));
        }
        lemma_trimmed_left_contains(s.drop_first(), o);
    }
}

proof fn lemma_trimmed_right_contains(s: Seq<char>, o: Seq<char>)
    requires
        !contains(s, o),
    ensures
        !contains(trimmed_right(s), o),
    decreases s.len(),
{
    if s.len() > 0 && white_space(s.last()) {
        if contains(s.drop_last(), o) {
            let i = choose|i: int| occurs_at(s.drop_last(), o, i);
            assert(s.subrange(i, i + o.len()) =~= s.drop_last().subrange(i, i + o.len()));
            assert(occurs_at(s, o, i));
        }
        lemma_trimmed_right_contains(s.drop_last(), o);
    }
}

/// A text followed by one that shares no character with `o` holds `o` only if it held it before.
pub proof fn lemma_append_contains(s: Seq<char>, tail: Seq<char>, o: Seq<char>)
    requires
        o.len() > 0,
        disjoint(o, tail),
        !contains(s, o),
    ensures
        !contains(s + tail, o),
{
    if contains(s + tail, o) {
        let i = choose|i: int| occurs_at(s + tail, o, i);
        if i + o.len() <= s.len() {
            assert(s.subrange(i, i + o.len()) =~= (s + tail).subrange(i, i + o.len()));
            assert(occurs_at(s, o, i));
        } else {
            let k = o.len() - 1;
            assert((s + tail).subrange(i, i + o.len())[k] == o[k]);
            assert(o[k] == tail[i + k - s.len()]);
        }
    }
}

proof fn lemma_trimmed_left(s: Seq<char>) -> (k: int)
    ensures
        0 <= k <= s.len(),
        trimmed_left(s) == s.skip(k),
        forall|i: int| 0 <= i < k ==> white_space(#[trigger] s[i]),
        k < s.len() ==> !white_space(s[k]),
    decreases s.len(),
{
    if s.len() > 0 && white_space(s[0]) {
        let k = lemma_trimmed_left(s.drop_first());
        assert(s.drop_first().skip(k) =~= s.skip(k + 1));
        assert forall|i: int| 0 <= i < k + 1 implies white_space(#[trigger] s[i]) by {
            if i > 0 {
                assert(s.drop_first()[i - 1] == s[i]);
            }
        }
        k + 1
    } else {
        assert(s.skip(0) =~= s);
        0
    }
}

proof fn lemma_trimmed_right(s: Seq<char>) -> (k: int)
    ensures
        0 <= k <= s.len(),
        trimmed_right(s) == s.take(k),
        forall|i: int| k <= i < s.len() ==> white_space(#[trigger] s[i]),
        k > 0 ==> !white_space(s[k - 1]),
    decreases s.len(),
{
    if s.len() > 0 && white_space(s.last()) {
        let k = lemma_trimmed_right(s.drop_last());
        assert(s.drop_last().take(k) =~= s.take(k));
        assert forall|i: int| k <= i < s.len() implies white_space(#[trigger] s[i]) by {
            if i < s.len() - 1 {
                assert(s.drop_last()[i] == s[i]);
            }
        }
        k
    } else {
        assert(s.take(s.len() as int) =~= s);
        s.len() as int
    }
}

/// Trimming takes away the white space at both ends, all of it and nothing else.
pub proof fn trimming_takes_away_white_space(s: Seq<char>)
    ensures
        exists|a: int, b: int|
            #![trigger s.subrange(a, b)]
            0 <= a <= b <= s.len() && trimmed(s) == s.subrange(a, b) && (forall|i: int|
                (0 <= i < a || b <= i < s.len()) ==> white_space(#[trigger] s[i])),
        trimmed(s).len() > 0 ==> !white_space(trimmed(s)[0]) && !white_space(trimmed(s).last()),
{
    let a = lemma_trimmed_left(s);
    let rest = s.skip(a);
    let k = lemma_trimmed_right(rest);
    let b = a + k;
    assert(rest.take(k) =~= s.subrange(a, b));
    assert forall|i: int| (0 <= i < a || b <= i < s.len()) implies white_space(
        #[trigger] s[i],
    ) by {
        if i >= b {
            assert(rest[i - a] == s[i]);
        }
    }
    if k > 0 {
        assert(trimmed(s)[0] == s[a]);
    }
}

/// A text without white space at its ends is trimmed to itself.
pub proof fn trimmed_texts_stay(s: Seq<char>)
    requires
        s.len() > 0 ==> !white_space(s[0]) && !white_space(s.last()),
    ensures
        trimmed(s) == s,
{
}

/// Spaces, tabs and line ends are white space; letters, digits and the marks of names are not.
pub proof fn white_space_is_what_separates(c: char)
    ensures
        white_space(' ') && white_space('\t') && white_space('\n') && white_space('\r'),
        ('a' <= c <= 'z') || ('A' <= c <= 'Z') || ('0' <= c <= '9') || c == '-' || c == '_' || c
            == '.' || c == ':' || c == '/' ==> !white_space(c),
{
}

/// Taking a character away from the end takes all of it there, and nothing else.
pub proof fn ends_are_taken_away(s: Seq<char>, c: char)
    ensures
        trimmed_end(s, c).len() <= s.len(),
        trimmed_end(s, c) == s.take(trimmed_end(s, c).len() as int),
        forall|i: int| trimmed_end(s, c).len() <= i < s.len() ==> #[trigger] s[i] == c,
        trimmed_end(s, c).len() > 0 ==> trimmed_end(s, c).last() != c,
    decreases s.len(),
{
    if s.len() > 0 && s.last() == c {
        let rest = s.drop_last();
        ends_are_taken_away(rest, c);
        let k = trimmed_end(s, c).len() as int;
        assert(rest.take(k) =~= s.take(k));
        assert forall|i: int| k <= i < s.len() implies #[trigger] s[i] == c by {
            if i < s.len() - 1 {
                assert(rest[i] == s[i]);
            }
        }
    } else {
        assert(s.take(s.len() as int) =~= s);
    }
}

/// An address in brackets is taken without them, and one without is taken as it is.
pub proof fn brackets_are_taken_away(s: Seq<char>)
    requires
        s.len() > 0,
        s[0] != '[' && s[0] != ']',
        s.last() != '[' && s.last() != ']',
    ensures
        unbracketed(s) == s,
        unbracketed(seq!['['] + s + seq![']']) == s,
{
    let full = seq!['['] + s + seq![']'];
    assert(full[0] == '[');
    let inner = full.drop_first();
    assert(inner =~= s + seq![']']);
    assert(inner[0] == s[0]);
    assert(unbracketed_left(inner) == inner);
    assert(unbracketed_left(full) == inner);
    assert(inner.last() == ']');
    assert(inner.drop_last() =~= s);
    assert(unbracketed_right(s) == s);
}

/// Letters become small letters and everything else stays, in its place.
pub proof fn lowering_changes_letters_alone(s: Seq<char>)
    ensures
        lowered(s).len() == s.len(),
        forall|i: int|
            0 <= i < s.len() && !('A' <= (#[trigger] s[i]) <= 'Z') ==> lowered(s)[i] == s[i],
        forall|i: int|
            0 <= i < s.len() && 'A' <= (#[trigger] s[i]) <= 'Z' ==> 'a' <= lowered(s)[i] <= 'z'
                && lowered(s)[i] as int - 'a' as int == s[i] as int - 'A' as int,
        lowered(lowered(s)) == lowered(s),
{
    assert(lowered(lowered(s)) =~= lowered(s));
}

/// A text begins and ends with what it was joined from, and what is left is the rest.
pub proof fn joined_texts_come_apart(p: Seq<char>, s: Seq<char>)
    ensures
        has_prefix(p + s, p),
        has_suffix(p + s, s),
        after_prefix(p + s, p) == Some(s),
        before_suffix(p + s, s) == Some(p),
        has_prefix(s, p) ==> s == p + after_prefix(s, p)->0,
        has_suffix(s, p) ==> s == before_suffix(s, p)->0 + p,
        contains(p + s, p) && contains(p + s, s),
{
    let all = p + s;
    assert(all.take(p.len() as int) =~= p);
    assert(all.skip(p.len() as int) =~= s);
    if has_prefix(s, p) {
        assert(s =~= p + s.skip(p.len() as int));
    }
    if has_suffix(s, p) {
        assert(s =~= s.take(s.len() - p.len()) + p);
    }
    assert(all.subrange(0, p.len() as int) =~= p);
    assert(occurs_at(all, p, 0));
    assert(all.subrange(p.len() as int, all.len() as int) =~= s);
    assert(occurs_at(all, s, p.len() as int));
}

/// A text is cut at the first `c`: what precedes holds none, and the two parts with `c` between them
/// are the text.
pub proof fn cuts_come_together_again(s: Seq<char>, c: char)
    ensures
        cut_at(s, c) is Some <==> s.contains(c),
        cut_at(s, c) matches Some(cut) ==> s == cut.0 + seq![c] + cut.1 && !cut.0.contains(c),
{
    if s.contains(c) {
        lemma_cut(s, c);
        lemma_first_position(s, c);
    }
}

/// The parts of a list, joined with `c` between them.
pub open spec fn joined(parts: Seq<Seq<char>>, c: char) -> Seq<char>
    decreases parts.len(),
{
    if parts.len() == 0 {
        Seq::empty()
    } else if parts.len() == 1 {
        parts[0]
    } else {
        joined(parts.drop_last(), c) + seq![c] + parts.last()
    }
}

/// The parts that a text is split into hold no separator, and joined with it they are the text.
pub proof fn split_texts_join_again(s: Seq<char>, c: char)
    ensures
        split(s, c).len() >= 1,
        joined(split(s, c), c) == s,
        forall|i: int| 0 <= i < split(s, c).len() ==> !(#[trigger] split(s, c)[i]).contains(c),
    decreases s.len(),
{
    let parts = split(s, c);
    if s.len() == 0 {
        assert(parts[0] =~= Seq::<char>::empty());
    } else {
        let rest = s.drop_last();
        split_texts_join_again(rest, c);
        let before = split(rest, c);
        if s.last() == c {
            assert(parts.drop_last() =~= before);
            assert(joined(parts, c) =~= rest + seq![c] + Seq::<char>::empty());
            assert(rest + seq![c] + Seq::<char>::empty() =~= s);
        } else {
            let last = before.last().push(s.last());
            assert(parts.drop_last() =~= before.drop_last());
            assert(parts.last() == last);
            if before.len() == 1 {
                assert(parts[0] == last);
                assert(before[0] == rest);
                assert(last =~= s);
            } else {
                let head = joined(before.drop_last(), c);
                assert(head + seq![c] + before.last() == rest);
                assert(head + seq![c] + last =~= (head + seq![c] + before.last()).push(s.last()));
                assert(rest.push(s.last()) =~= s);
            }
            assert forall|i: int| 0 <= i < parts.len() implies !(#[trigger] parts[i]).contains(
                c,
            ) by {
                if i < parts.len() - 1 {
                    assert(parts[i] == before[i]);
                } else {
                    assert(!before[i].contains(c));
                    if last.contains(c) {
                        let k = choose|k: int| 0 <= k < last.len() && last[k] == c;
                        assert(before[i][k] == c);
                    }
                }
            }
        }
    }
}

/// A part that holds no separator is split off behind one.
pub proof fn parts_are_split_off(s: Seq<char>, c: char, part: Seq<char>)
    requires
        !part.contains(c),
    ensures
        split(s + seq![c] + part, c) == split(s, c).push(part),
    decreases part.len(),
{
    let all = s + seq![c] + part;
    if part.len() == 0 {
        assert(all.drop_last() =~= s);
        assert(all.last() == c);
        assert(part =~= Seq::<char>::empty());
    } else {
        let rest = part.drop_last();
        assert forall|i: int| 0 <= i < rest.len() implies rest[i] != c by {
            assert(part[i] == rest[i]);
        }
        parts_are_split_off(s, c, rest);
        assert(all.drop_last() =~= s + seq![c] + rest);
        assert(all.last() == part.last());
        assert(part[part.len() - 1] == part.last());
        let before = split(s, c).push(rest);
        assert(rest.push(part.last()) =~= part);
        assert(before.update(before.len() - 1, before.last().push(part.last())) =~= split(
            s,
            c,
        ).push(part));
    }
}

/// A text without a separator is one part.
pub proof fn texts_without_a_separator_are_one_part(s: Seq<char>, c: char)
    requires
        !s.contains(c),
    ensures
        split(s, c) == seq![s],
    decreases s.len(),
{
    if s.len() == 0 {
        assert(s =~= Seq::<char>::empty());
    } else {
        let rest = s.drop_last();
        assert forall|i: int| 0 <= i < rest.len() implies rest[i] != c by {
            assert(s[i] == rest[i]);
        }
        texts_without_a_separator_are_one_part(rest, c);
        assert(s[s.len() - 1] == s.last());
        assert(rest.push(s.last()) =~= s);
        assert(seq![rest].update(0, s) =~= seq![s]);
    }
}

/// Replacing leaves a text that does not hold what is replaced, and puts the new text in its place.
pub proof fn replacing_changes_what_is_found_alone(
    s: Seq<char>,
    from: Seq<char>,
    to: Seq<char>,
)
    requires
        from.len() > 0,
    ensures
        !contains(s, from) ==> replaced(s, from, to) == s,
        replaced(from, from, to) == to,
        replaced(from + s, from, to) == to + replaced(s, from, to),
    decreases s.len(),
{
    assert((from + s).take(from.len() as int) =~= from);
    assert((from + s).skip(from.len() as int) =~= s);
    assert(from.take(from.len() as int) =~= from);
    assert(from.skip(from.len() as int) =~= Seq::<char>::empty());
    assert(replaced(Seq::<char>::empty(), from, to) =~= Seq::<char>::empty());
    assert(to + Seq::<char>::empty() =~= to);
    if !contains(s, from) && s.len() > 0 {
        let rest = s.drop_first();
        if contains(rest, from) {
            let i = choose|i: int| occurs_at(rest, from, i);
            assert(rest.subrange(i, i + from.len()) =~= s.subrange(i + 1, i + 1 + from.len()));
            assert(occurs_at(s, from, i + 1));
        }
        if has_prefix(s, from) {
            assert(s.subrange(0, from.len() as int) =~= s.take(from.len() as int));
            assert(occurs_at(s, from, 0));
        }
        replacing_changes_what_is_found_alone(rest, from, to);
        assert(seq![s[0]] + rest =~= s);
    }
}

/// A shortened text is the beginning of it, as long as it may be.
pub proof fn shortened_texts_are_beginnings(s: Seq<char>, n: int)
    requires
        0 <= n,
    ensures
        shortened(s, n).len() <= n,
        has_prefix(s, shortened(s, n)),
        s.len() <= n ==> shortened(s, n) == s,
        s.len() > n ==> shortened(s, n).len() == n,
{
    if s.len() <= n {
        assert(s.take(s.len() as int) =~= s);
    }
}

} // verus!
