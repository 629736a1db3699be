//! Finding the interface of the default route in what `ip route` prints.
use vstd::prelude::*;
use vstd::slice::slice_subrange;

verus! {

/// The byte is an ASCII letter, an ASCII digit or an underscore.
pub open spec fn is_word_byte(byte: u8) -> bool {
    ||| 0x30 <= byte <= 0x39
    ||| 0x41 <= byte <= 0x5A
    ||| 0x61 <= byte <= 0x7A
    ||| byte == 0x5F
}

/// The byte is ASCII white space: a blank, a tab, a line feed, a vertical
/// tab, a form feed or a carriage return.
pub open spec fn is_space_byte(byte: u8) -> bool {
    byte == 0x20 || 0x09 <= byte <= 0x0D
}

/// At `at` stands the word `dev`, a blank, and then something that is not
/// white space; and no letter, digit or underscore stands right before it.
pub open spec fn device_follows(route: Seq<u8>, at: int) -> bool {
    &&& 0 <= at
    &&& at + 4 < route.len()
    &&& at > 0 ==> !is_word_byte(route[at - 1])
    &&& route[at] == 0x64
    &&& route[at + 1] == 0x65
    &&& route[at + 2] == 0x76
    &&& route[at + 3] == 0x20
    &&& !is_space_byte(route[at + 4])
}

/// Where the run of bytes that are not white space and that begins at
/// `from` ends.
pub open spec fn name_end(route: Seq<u8>, from: int) -> int
    decreases route.len() - from,
{
    if from < 0 || from >= route.len() || is_space_byte(route[from]) {
        from
    } else {
        name_end(route, from + 1)
    }
}

/// The first place not before `from` at which a device is named, if there
/// is any.
pub open spec fn first_device(route: Seq<u8>, from: int) -> Option<int>
    decreases route.len() - from,
{
    if from < 0 || from + 4 >= route.len() {
        None
    } else if device_follows(route, from) {
        Some(from)
    } else {
        first_device(route, from + 1)
    }
}

/// The name of the interface in the output of `ip route show default`: what
/// follows the first `dev ` that begins a word, up to the next white space.
/// White space and words go by ASCII: a byte above 127 is neither blank nor
/// part of a word.
pub open spec fn spec_interface_holding_default_route(route: Seq<u8>) -> Option<Seq<u8>> {
    match first_device(route, 0) {
        Some(at) => Some(route.subrange(at + 4, name_end(route, at + 4))),
        None => None,
    }
}

/// The end of a name is within the text and not before the name's start.
proof fn lemma_name_end_bounds(route: Seq<u8>, from: int)
    requires
        0 <= from <= route.len(),
    ensures
        from <= name_end(route, from) <= route.len(),
    decreases route.len() - from,
{
    if from < route.len() && !is_space_byte(route[from]) {
        lemma_name_end_bounds(route, from + 1);
    }
}

/// Finds the name of the interface in the output of `ip route show
/// default`.
pub fn get_interface_holding_default_route(route: &[u8]) -> (name: Option<&[u8]>)
    ensures
        match spec_interface_holding_default_route(route@) {
            Some(expected) => name matches Some(found) && found@ == expected,
            None => name is None,
        },
{
    let mut at: usize = 0;
    while at < route.len() && route.len() - at > 4
        invariant
            0 <= at <= route.len(),
            first_device(route@, 0) == first_device(route@, at as int),
        decreases route.len() - at,
    {
        let begins_word = at == 0 || !is_word(route[at - 1]);
        if begins_word && route[at] == 0x64 && route[at + 1] == 0x65 && route[at + 2] == 0x76
            && route[at + 3] == 0x20 && !is_space(route[at + 4]) {
            let from = at + 4;
            let mut end: usize = from;
            while end < route.len() && !is_space(route[end])
                invariant
                    from <= end <= route.len(),
                    name_end(route@, from as int) == name_end(route@, end as int),
                decreases route.len() - end,
            {
                end = end + 1;
            }
            proof {
                lemma_name_end_bounds(route@, from as int);
            }
            return Some(slice_subrange(route, from, end));
        }
        at = at + 1;
    }
    None
}

/// Whether the byte is an ASCII letter, an ASCII digit or an underscore.
fn is_word(byte: u8) -> (word: bool)
    ensures
        word == is_word_byte(byte),
{
    (0x30 <= byte && byte <= 0x39) || (0x41 <= byte && byte <= 0x5A) || (0x61 <= byte && byte
        <= 0x7A) || byte == 0x5F
}

/// Whether the byte is ASCII white space.
fn is_space(byte: u8) -> (space: bool)
    ensures
        space == is_space_byte(byte),
{
    byte == 0x20 || (0x09 <= byte && byte <= 0x0D)
}

} // verus!
