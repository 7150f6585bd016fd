//! The nesting of structures in DER, the form in which keys are stored.
use vstd::prelude::*;

verus! {

/// How many structures may stand inside one another.
pub const MAX_LEVELS: usize = 128;

/// An element: whether it holds others, and where its contents begin and end.
pub ghost struct Element {
    pub holds: bool,
    pub start: int,
    pub end: int,
}

/// The number that `n` bytes write, the highest first.
pub open spec fn number_at(bytes: Seq<u8>, from: int, n: int) -> int
    decreases n,
{
    if n <= 0 {
        0
    } else {
        number_at(bytes, from, n - 1) * 256 + bytes[from + n - 1]
    }
}

/// The position of the first byte from a position on, before an end, with which a long number ends:
/// the first below 128.
pub open spec fn last_of_tag(bytes: Seq<u8>, i: int, end: int) -> Option<int>
    decreases end - i,
{
    if i >= end {
        None
    } else if bytes[i] < 128 {
        Some(i)
    } else {
        last_of_tag(bytes, i + 1, end)
    }
}

/// The number that `n` bytes write in seven bits each, the highest first.
pub open spec fn long_number(bytes: Seq<u8>, from: int, n: int) -> int
    decreases n,
{
    if n <= 0 {
        0
    } else {
        long_number(bytes, from, n - 1) * 128 + bytes[from + n - 1] % 128
    }
}

/// A tag: where the bytes of it end, and whether an element with it holds others, as a sequence or a
/// set does, and one of another class that is constructed.
pub ghost struct Tag {
    pub end: int,
    pub holds: bool,
}

/// The tag at a position, where there is a whole one before the end. A number of more than four bits
/// may take further bytes.
pub open spec fn tag_at(bytes: Seq<u8>, i: int, end: int) -> Option<Tag> {
    let short = bytes[i] % 32 != 31;
    match last_of_tag(bytes, i + 1, end) {
        None if !short => None,
        last => {
            let stop = if short {
                i + 1
            } else {
                last->0 + 1
            };
            let number = if short {
                bytes[i] as int % 32
            } else {
                long_number(bytes, i + 1, stop - i - 1)
            };
            Some(
                Tag {
                    end: stop,
                    holds: if bytes[i] / 64 == 0 {
                        number == 16 || number == 17
                    } else {
                        bytes[i] / 32 % 2 == 1
                    },
                },
            )
        },
    }
}

/// The element at a position, where there is a whole one before the end. Its length takes at most
/// nine bytes.
pub open spec fn element_at(bytes: Seq<u8>, i: int, end: int) -> Option<Element> {
    match tag_at(bytes, i, end) {
        None => None,
        Some(tag) => if tag.end >= end {
            None
        } else {
            let first = bytes[tag.end] as int;
            let more = if first < 128 {
                0
            } else {
                first - 128
            };
            let start = tag.end + 1 + more;
            let length = if first < 128 {
                first
            } else {
                number_at(bytes, tag.end + 1, more)
            };
            if more > 8 || start + length > end {
                None
            } else {
                Some(Element { holds: tag.holds, start, end: start + length })
            }
        },
    }
}

/// Whether the bytes from a position to an end are elements, with no more than some levels of them
/// inside one another.
pub open spec fn shallow(bytes: Seq<u8>, i: int, end: int, levels: nat) -> bool
    decreases levels, end - i,
{
    if i >= end {
        true
    } else {
        match element_at(bytes, i, end) {
            None => false,
            Some(element) => i < element.end && (element.holds ==> levels > 0 && shallow(
                bytes,
                element.start,
                element.end,
                (levels - 1) as nat,
            )) && shallow(bytes, element.end, end, levels),
        }
    }
}

proof fn lemma_number_grows(bytes: Seq<u8>, from: int, k: int, n: int)
    requires
        0 <= k <= n,
    ensures
        0 <= number_at(bytes, from, k) <= number_at(bytes, from, n),
    decreases n,
{
    if k < n {
        lemma_number_grows(bytes, from, k, n - 1);
    } else if n > 0 {
        lemma_number_grows(bytes, from, n - 1, n - 1);
    }
}

/// The number that `n` bytes write, unless it is more than a limit.
fn read_number(bytes: &Vec<u8>, from: usize, n: usize, limit: usize) -> (r: Option<usize>)
    requires
        from + n <= bytes@.len(),
    ensures
        match r {
            Some(value) => value == number_at(bytes@, from as int, n as int) && value <= limit,
            None => number_at(bytes@, from as int, n as int) > limit,
        },
{
    let total: usize = bytes.len();
    let mut value: u128 = 0;
    let mut k: usize = 0;
    while k < n
        invariant
            k <= n,
            from + n <= total == bytes@.len(),
            value == number_at(bytes@, from as int, k as int),
            value <= limit,
        decreases n - k,
    {
        value = value * 256 + bytes[from + k] as u128;
        k = k + 1;
        if value > limit as u128 {
            proof {
                lemma_number_grows(bytes@, from as int, k as int, n as int);
            }
            return None;
        }
    }
    Some(value as usize)
}

proof fn lemma_long_grows(bytes: Seq<u8>, from: int, k: int, n: int)
    requires
        0 <= k <= n,
    ensures
        0 <= long_number(bytes, from, k) <= long_number(bytes, from, n),
    decreases n,
{
    if k < n {
        lemma_long_grows(bytes, from, k, n - 1);
    } else if n > 0 {
        lemma_long_grows(bytes, from, n - 1, n - 1);
    }
}

/// Where a long number ends, and the number itself, or 256 for any number above 255.
fn read_long(bytes: &Vec<u8>, from: usize, end: usize) -> (r: Option<(usize, u16)>)
    requires
        from <= end <= bytes@.len(),
    ensures
        match r {
            Some((stop, number)) => from < stop <= end && last_of_tag(
                bytes@,
                from as int,
                end as int,
            ) == Some(stop - 1) && (if number < 256 {
                long_number(bytes@, from as int, stop - from) == number
            } else {
                long_number(bytes@, from as int, stop - from) >= 256
            }),
            None => last_of_tag(bytes@, from as int, end as int) is None,
        },
{
    let mut number: u16 = 0;
    let mut i: usize = from;
    while i < end
        invariant
            from <= i <= end <= bytes@.len(),
            last_of_tag(bytes@, from as int, end as int) == last_of_tag(
                bytes@,
                i as int,
                end as int,
            ),
            number <= 256,
            if number < 256 {
                long_number(bytes@, from as int, i - from) == number
            } else {
                long_number(bytes@, from as int, i - from) >= 256
            },
        decreases end - i,
    {
        let byte: u8 = bytes[i];
        proof {
            lemma_long_grows(bytes@, from as int, i - from, i - from + 1);
        }
        if number < 256 {
            number = number * 128 + (byte % 128) as u16;
            if number > 256 {
                number = 256;
            }
        }
        i = i + 1;
        if byte < 128 {
            return Some((i, number));
        }
    }
    None
}

/// Where a tag ends, and whether an element with it holds others.
fn read_tag(bytes: &Vec<u8>, i: usize, end: usize) -> (r: Option<(usize, bool)>)
    requires
        i < end <= bytes@.len(),
    ensures
        match r {
            Some((stop, holds)) => i < stop <= end && tag_at(bytes@, i as int, end as int) == Some(
                Tag { end: stop as int, holds },
            ),
            None => tag_at(bytes@, i as int, end as int) is None,
        },
{
    let tag: u8 = bytes[i];
    let (stop, number): (usize, u16) = if tag % 32 != 31 {
        (i + 1, (tag % 32) as u16)
    } else {
        match read_long(bytes, i + 1, end) {
            Some(read) => read,
            None => {
                return None;
            },
        }
    };
    let holds: bool = if tag / 64 == 0 {
        number == 16 || number == 17
    } else {
        tag / 32 % 2 == 1
    };
    Some((stop, holds))
}

/// Where the contents of the element at a position begin and end, and whether they are others.
fn read_element(bytes: &Vec<u8>, i: usize, end: usize) -> (r: Option<(bool, usize, usize)>)
    requires
        i < end <= bytes@.len(),
    ensures
        match r {
            Some((holds, start, stop)) => i < start <= stop <= end && element_at(
                bytes@,
                i as int,
                end as int,
            ) == Some(Element { holds, start: start as int, end: stop as int }),
            None => element_at(bytes@, i as int, end as int) is None,
        },
{
    let (at, holds): (usize, bool) = match read_tag(bytes, i, end) {
        Some(read) => read,
        None => {
            return None;
        },
    };
    if at >= end {
        return None;
    }
    let first: u8 = bytes[at];
    let more: usize = if first < 128 {
        0
    } else {
        (first - 128) as usize
    };
    proof {
        lemma_number_grows(bytes@, at + 1, 0, more as int);
    }
    if more > 8 || more > end - at - 1 {
        return None;
    }
    let start: usize = at + 1 + more;
    let length: usize = if first < 128 {
        first as usize
    } else {
        match read_number(bytes, at + 1, more, end - start) {
            Some(length) => length,
            None => {
                return None;
            },
        }
    };
    if length > end - start {
        return None;
    }
    Some((holds, start, start + length))
}

/// Whether the bytes from a position to an end are elements, with no more than some levels of them
/// inside one another.
pub fn is_shallow(bytes: &Vec<u8>, from: usize, end: usize, levels: usize) -> (r: bool)
    requires
        from <= end <= bytes@.len(),
    ensures
        r == shallow(bytes@, from as int, end as int, levels as nat),
    decreases levels,
{
    let mut i: usize = from;
    while i < end
        invariant
            from <= i <= end <= bytes@.len(),
            shallow(bytes@, from as int, end as int, levels as nat) == shallow(
                bytes@,
                i as int,
                end as int,
                levels as nat,
            ),
        decreases end - i,
    {
        match read_element(bytes, i, end) {
            None => {
                return false;
            },
            Some((holds, start, stop)) => {
                if holds {
                    if levels == 0 || !is_shallow(bytes, start, stop, levels - 1) {
                        return false;
                    }
                }
                i = stop;
            },
        }
    }
    true
}

/// What is shallow stays so where more levels are allowed.
pub proof fn more_levels_allow_more(bytes: Seq<u8>, i: int, end: int, few: nat, many: nat)
    requires
        few <= many,
        shallow(bytes, i, end, few),
    ensures
        shallow(bytes, i, end, many),
    decreases few, end - i,
{
    if i < end {
        let element = element_at(bytes, i, end)->0;
        if element.holds {
            more_levels_allow_more(
                bytes,
                element.start,
                element.end,
                (few - 1) as nat,
                (many - 1) as nat,
            );
        }
        more_levels_allow_more(bytes, element.end, end, few, many);
    }
}

/// Without a level nothing may hold anything.
pub proof fn elements_take_a_level(bytes: Seq<u8>, i: int, end: int)
    requires
        i < end,
        shallow(bytes, i, end, 0),
    ensures
        element_at(bytes, i, end) is Some,
        !element_at(bytes, i, end)->0.holds,
{
}

} // verus!
