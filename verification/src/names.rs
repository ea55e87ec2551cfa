//! The list of device names that the driver gives.
//!
//! The driver fills a buffer with names that are separated by a zero byte. Two
//! zero bytes in a row end the list, and what stands behind them does not count.
use crate::text;
use vstd::prelude::*;
use vstd::utf8::*;

verus! {

/// Whether two zero bytes stand at `at`.
pub open spec fn ends_at(buffer: Seq<u8>, at: int) -> bool {
    0 <= at && at + 1 < buffer.len() && buffer[at] == 0 && buffer[at + 1] == 0
}

/// Where the first two zero bytes in a row stand from `at` on, or the end of the
/// buffer where there are none.
pub open spec fn list_end(buffer: Seq<u8>, at: int) -> int
    decreases buffer.len() - at,
{
    if at >= buffer.len() {
        buffer.len() as int
    } else if ends_at(buffer, at) {
        at
    } else {
        list_end(buffer, at + 1)
    }
}

/// The parts of a list between the zero bytes. There is one more than there are
/// zero bytes, and parts can be empty.
pub open spec fn split_at_zeros(list: Seq<u8>) -> Seq<Seq<u8>>
    decreases list.len(),
{
    proof {
        list.index_of_first_ensures(0);
    }
    match list.index_of_first(0) {
        Some(zero) => seq![list.take(zero)] + split_at_zeros(list.skip(zero + 1)),
        None => seq![list],
    }
}

/// The parts with a zero byte between each two of them.
pub open spec fn join_with_zeros(parts: Seq<Seq<u8>>) -> Seq<u8>
    decreases parts.len(),
{
    if parts.len() == 0 {
        Seq::empty()
    } else if parts.len() == 1 {
        parts[0]
    } else {
        parts[0].push(0) + join_with_zeros(parts.drop_first())
    }
}

/// The names in a buffer that the driver has filled, as bytes.
pub open spec fn name_parts(buffer: Seq<u8>) -> Seq<Seq<u8>> {
    split_at_zeros(buffer.take(list_end(buffer, 0)))
}

/// The names in a buffer that the driver has filled.
pub open spec fn names_in(buffer: Seq<u8>) -> Seq<Seq<char>> {
    name_parts(buffer).map_values(|part: Seq<u8>| decode_utf8(part))
}

/// The end of the list is the first place where two zero bytes stand.
pub proof fn list_end_is_first(buffer: Seq<u8>, at: int)
    requires
        0 <= at <= buffer.len(),
    ensures
        at <= list_end(buffer, at) <= buffer.len(),
        list_end(buffer, at) < buffer.len() ==> ends_at(buffer, list_end(buffer, at)),
        forall|i: int| at <= i < list_end(buffer, at) ==> !(#[trigger] ends_at(buffer, i)),
    decreases buffer.len() - at,
{
    if at < buffer.len() && !ends_at(buffer, at) {
        list_end_is_first(buffer, at + 1);
    }
}

/// The names are exactly what stands between the zero bytes of the list: joined
/// with zero bytes they are the list again, and none of them holds a zero byte.
pub proof fn split_undone_by_join(list: Seq<u8>)
    ensures
        join_with_zeros(split_at_zeros(list)) == list,
        split_at_zeros(list).len() >= 1,
        forall|i: int|
            0 <= i < split_at_zeros(list).len() ==> !(#[trigger] split_at_zeros(list)[i]).contains(
                0,
            ),
    decreases list.len(),
{
    list.index_of_first_ensures(0);
    if let Some(zero) = list.index_of_first(0) {
        let rest = list.skip(zero + 1);
        split_undone_by_join(rest);
        let parts = split_at_zeros(list);
        assert(parts.drop_first() =~= split_at_zeros(rest));
        assert(list.take(zero).push(0) + rest =~= list);
        assert forall|i: int| 0 <= i < parts.len() implies !(#[trigger] parts[i]).contains(0) by {
            if i > 0 {
                assert(parts[i] == split_at_zeros(rest)[i - 1]);
            }
        }
    }
}

/// The other way round, names without zero bytes come out of the list that they
/// are joined to.
pub proof fn join_undone_by_split(parts: Seq<Seq<u8>>)
    requires
        parts.len() >= 1,
        forall|i: int| 0 <= i < parts.len() ==> !(#[trigger] parts[i]).contains(0),
    ensures
        split_at_zeros(join_with_zeros(parts)) == parts,
    decreases parts.len(),
{
    let list = join_with_zeros(parts);
    list.index_of_first_ensures(0);
    if parts.len() == 1 {
        assert(!parts[0].contains(0));
        assert(split_at_zeros(list) =~= parts);
    } else {
        let zero = parts[0].len() as int;
        join_undone_by_split(parts.drop_first());
        assert(list[zero] == 0);
        assert(list.contains(0));
        assert forall|j: int| 0 <= j < zero implies list[j] != 0 by {
            assert(parts[0].contains(parts[0][j]));
        }
        assert(list.index_of_first(0) == Some(zero));
        assert(list.take(zero) =~= parts[0]);
        assert(list.skip(zero + 1) =~= join_with_zeros(parts.drop_first()));
        assert(split_at_zeros(list) =~= parts);
    }
}

/// In a list of names that are not empty, no two zero bytes stand in a row, and the
/// last byte is not zero.
proof fn joined_zeros_stand_alone(parts: Seq<Seq<u8>>)
    requires
        parts.len() >= 1,
        forall|i: int|
            0 <= i < parts.len() ==> (#[trigger] parts[i]).len() > 0 && !parts[i].contains(0),
    ensures
        join_with_zeros(parts).len() > 0,
        join_with_zeros(parts)[0] != 0,
        join_with_zeros(parts).last() != 0,
        forall|i: int|
            0 <= i < join_with_zeros(parts).len() ==> !#[trigger] ends_at(
                join_with_zeros(parts),
                i,
            ),
    decreases parts.len(),
{
    let list = join_with_zeros(parts);
    let first = parts[0];
    assert forall|i: int| 0 <= i < first.len() implies first[i] != 0 by {
        assert(first.contains(first[i]));
    }
    if parts.len() > 1 {
        let rest = join_with_zeros(parts.drop_first());
        joined_zeros_stand_alone(parts.drop_first());
        assert(list =~= first.push(0) + rest);
        assert forall|i: int| 0 <= i < list.len() implies !#[trigger] ends_at(list, i) by {
            if i > first.len() {
                assert(!ends_at(rest, i - first.len() - 1));
            }
        }
    }
}

/// Names that are written one behind the other, with a zero byte between each two of
/// them and two zero bytes behind the last, are the names that are read, whatever
/// stands behind them.
pub proof fn written_names_are_read(parts: Seq<Seq<u8>>, rest: Seq<u8>)
    requires
        parts.len() >= 1,
        forall|i: int|
            0 <= i < parts.len() ==> (#[trigger] parts[i]).len() > 0 && !parts[i].contains(0),
    ensures
        name_parts(join_with_zeros(parts) + seq![0u8, 0u8] + rest) == parts,
{
    let list = join_with_zeros(parts);
    let buffer = list + seq![0u8, 0u8] + rest;
    let end = list_end(buffer, 0);
    joined_zeros_stand_alone(parts);
    list_end_is_first(buffer, 0);
    assert(ends_at(buffer, list.len() as int));
    assert(end == list.len()) by {
        if end < list.len() {
            assert(!ends_at(list, end));
        }
    }
    assert(buffer.take(end) =~= list);
    join_undone_by_split(parts);
}

/// Text can be cut before a zero byte and behind it.
proof fn cut_at_zero(text: Seq<u8>, zero: int)
    requires
        valid_utf8(text),
        0 <= zero < text.len(),
        text[zero] == 0,
    ensures
        valid_utf8(text.take(zero)),
        valid_utf8(text.skip(zero + 1)),
{
    is_char_boundary_iff_is_leading_byte(text, zero);
    assert(is_leading_byte_width_1(text[zero]));
    valid_utf8_split(text, zero);
    assert(text.take(zero) =~= text.subrange(0, zero));
    let tail = text.subrange(zero, text.len() as int);
    assert(tail[0] == 0);
    assert(length_of_first_scalar(tail) == 1);
    assert(pop_first_scalar(tail) =~= text.skip(zero + 1));
}

/// The parts of a text are texts.
proof fn parts_are_text(list: Seq<u8>)
    requires
        valid_utf8(list),
    ensures
        forall|i: int|
            0 <= i < split_at_zeros(list).len() ==> valid_utf8(#[trigger] split_at_zeros(list)[i]),
    decreases list.len(),
{
    list.index_of_first_ensures(0);
    if let Some(zero) = list.index_of_first(0) {
        let rest = list.skip(zero + 1);
        cut_at_zero(list, zero);
        parts_are_text(rest);
        let parts = split_at_zeros(list);
        assert forall|i: int| 0 <= i < parts.len() implies valid_utf8(#[trigger] parts[i]) by {
            if i > 0 {
                assert(parts[i] == split_at_zeros(rest)[i - 1]);
            }
        }
    }
}

/// The names of a buffer that holds text are texts.
pub proof fn name_parts_are_text(buffer: Seq<u8>)
    requires
        valid_utf8(buffer),
    ensures
        forall|i: int|
            0 <= i < name_parts(buffer).len() ==> valid_utf8(#[trigger] name_parts(buffer)[i]),
{
    list_end_is_first(buffer, 0);
    let end = list_end(buffer, 0);
    if end < buffer.len() {
        cut_at_zero(buffer, end);
    } else {
        assert(buffer.take(end) =~= buffer);
    }
    parts_are_text(buffer.take(end));
}

/// Finds the end of the list.
fn find_list_end(buffer: &[u8]) -> (end: usize)
    ensures
        end == list_end(buffer@, 0),
{
    let mut at: usize = 0;
    while at < buffer.len()
        invariant
            at <= buffer@.len(),
            list_end(buffer@, 0) == list_end(buffer@, at as int),
        decreases buffer@.len() - at,
    {
        if buffer[at] == 0 && buffer.len() - at > 1 && buffer[at + 1] == 0 {
            return at;
        }
        at = at + 1;
    }
    buffer.len()
}

/// The text of a part of the buffer.
fn part_text(buffer: &[u8], start: usize, end: usize) -> (text: String)
    requires
        start <= end <= buffer@.len(),
        valid_utf8(buffer@.subrange(start as int, end as int)),
    ensures
        text@ == decode_utf8(buffer@.subrange(start as int, end as int)),
{
    let part: Vec<u8> = vstd::slice::slice_to_vec(vstd::slice::slice_subrange(buffer, start, end));
    text::string_from_utf8(part).unwrap()
}

/// The characters of each of the texts.
pub open spec fn texts(strings: Seq<String>) -> Seq<Seq<char>> {
    strings.map_values(|string: String| string@)
}

/// Reads the device names from a buffer that the driver has filled.
pub fn device_names(buffer: &[u8]) -> (names: Vec<String>)
    requires
        valid_utf8(buffer@),
    ensures
        texts(names@) == names_in(buffer@),
        names@.len() == names_in(buffer@).len(),
        forall|i: int| 0 <= i < names@.len() ==> (#[trigger] names@[i])@ == names_in(buffer@)[i],
{
    let end: usize = find_list_end(buffer);
    let ghost list = buffer@.take(end as int);
    let ghost parts = name_parts(buffer@);
    proof {
        list_end_is_first(buffer@, 0);
        name_parts_are_text(buffer@);
        assert(list.skip(0) =~= list);
        assert(Seq::<Seq<u8>>::empty() + parts =~= parts);
    }
    let mut names: Vec<String> = Vec::new();
    let mut start: usize = 0;
    let mut at: usize = 0;
    while at < end
        invariant
            start <= at <= end <= buffer@.len(),
            list == buffer@.take(end as int),
            parts == split_at_zeros(list),
            forall|i: int| 0 <= i < parts.len() ==> valid_utf8(#[trigger] parts[i]),
            names@.len() <= parts.len(),
            parts == parts.take(names@.len() as int) + split_at_zeros(list.skip(start as int)),
            forall|i: int|
                0 <= i < names@.len() ==> (#[trigger] names@[i])@ == decode_utf8(parts[i]),
            forall|i: int| start <= i < at ==> list[i] != 0,
        decreases end - at,
    {
        if buffer[at] == 0 {
            let ghost left = list.skip(start as int);
            let ghost done = names@.len() as int;
            proof {
                assert(left[at - start] == 0);
                assert(left.contains(0));
                left.index_of_first_ensures(0);
                let zero = left.index_of_first(0)->0;
                assert(zero == at - start) by {
                    assert(left[zero] == list[start + zero]);
                    if at - start < zero {
                        assert(left[at - start] != 0);
                    }
                }
                assert(left.take(zero) =~= buffer@.subrange(start as int, at as int));
                assert(left.skip(zero + 1) =~= list.skip(at + 1));
                assert(parts[done] == split_at_zeros(left)[0]);
            }
            names.push(part_text(buffer, start, at));
            at = at + 1;
            start = at;
            proof {
                assert(parts =~= parts.take(done + 1) + split_at_zeros(list.skip(start as int)));
            }
        } else {
            at = at + 1;
        }
    }
    proof {
        let left = list.skip(start as int);
        left.index_of_first_ensures(0);
        if left.contains(0) {
            let zero = left.index_of_first(0)->0;
            assert(left[zero] == list[start + zero]);
        }
        assert(left =~= buffer@.subrange(start as int, end as int));
        assert(parts[names@.len() as int] == left);
    }
    names.push(part_text(buffer, start, end));
    assert(texts(names@) =~= names_in(buffer@));
    assert forall|i: int| 0 <= i < names@.len() implies (#[trigger] names@[i])@ == names_in(
        buffer@,
    )[i] by {
        assert(texts(names@)[i] == names@[i]@);
    }
    names
}

/// No name in a buffer holds a zero byte.
pub proof fn names_hold_no_zero(buffer: Seq<u8>)
    requires
        valid_utf8(buffer),
    ensures
        forall|i: int|
            0 <= i < names_in(buffer).len() ==> !encode_utf8(
                #[trigger] names_in(buffer)[i],
            ).contains(0),
{
    name_parts_are_text(buffer);
    split_undone_by_join(buffer.take(list_end(buffer, 0)));
    assert forall|i: int| 0 <= i < names_in(buffer).len() implies !encode_utf8(
        #[trigger] names_in(buffer)[i],
    ).contains(0) by {
        decode_utf8_encode_utf8(name_parts(buffer)[i]);
    }
}

/// The names have the bytes of the parts of the list, all of them.
pub proof fn names_encode_to_their_parts(buffer: Seq<u8>)
    requires
        valid_utf8(buffer),
    ensures
        names_in(buffer).len() == name_parts(buffer).len(),
        forall|i: int|
            0 <= i < names_in(buffer).len() ==> encode_utf8(#[trigger] names_in(buffer)[i])
                == name_parts(buffer)[i],
{
    name_parts_are_text(buffer);
    assert forall|i: int| 0 <= i < names_in(buffer).len() implies encode_utf8(
        #[trigger] names_in(buffer)[i],
    ) == name_parts(buffer)[i] by {
        decode_utf8_encode_utf8(name_parts(buffer)[i]);
    }
}

/// The bytes of the texts.
pub open spec fn encodings(texts: Seq<Seq<char>>) -> Seq<Seq<u8>> {
    texts.map_values(|text: Seq<char>| encode_utf8(text))
}

/// Texts that are written one behind the other, with a zero byte between each two of
/// them and two zero bytes behind the last, are the names that are read, of whatever
/// length they are and whatever stands behind them.
pub proof fn written_texts_are_read(texts: Seq<Seq<char>>, rest: Seq<u8>)
    requires
        texts.len() >= 1,
        forall|i: int|
            0 <= i < texts.len() ==> (#[trigger] texts[i]).len() > 0 && !encode_utf8(
                texts[i],
            ).contains(0),
    ensures
        names_in(join_with_zeros(encodings(texts)) + seq![0u8, 0u8] + rest) == texts,
{
    broadcast use {encode_utf8_valid_utf8, encode_utf8_decode_utf8};

    let parts = encodings(texts);
    let buffer = join_with_zeros(parts) + seq![0u8, 0u8] + rest;
    assert forall|i: int| 0 <= i < parts.len() implies (#[trigger] parts[i]).len() > 0
        && !parts[i].contains(0) by {
        assert(texts[i].len() > 0);
        if parts[i].len() == 0 {
            assert(decode_utf8(parts[i]).len() == 0);
        }
    }
    written_names_are_read(parts, rest);
    assert forall|i: int| 0 <= i < texts.len() implies #[trigger] names_in(buffer)[i]
        == texts[i] by {
        assert(name_parts(buffer)[i] == encode_utf8(texts[i]));
    }
    assert(names_in(buffer) =~= texts);
}

/// The names that are read make up the list from its start to its end: joined with
/// zero bytes their bytes are what stands before the first two zero bytes in a row,
/// or the whole buffer where there are none. There is always at least one, and none
/// holds a zero byte.
pub proof fn names_make_up_the_list(buffer: Seq<u8>, end: int)
    requires
        valid_utf8(buffer),
        0 <= end <= buffer.len(),
        end < buffer.len() ==> end + 1 < buffer.len() && buffer[end] == 0 && buffer[end + 1] == 0,
        forall|i: int, j: int|
            #![trigger buffer[i], buffer[j]]
            0 <= i < end && j == i + 1 && j < buffer.len() ==> !(buffer[i] == 0 && buffer[j] == 0),
    ensures
        join_with_zeros(encodings(names_in(buffer))) == buffer.take(end),
        names_in(buffer).len() >= 1,
        forall|i: int|
            0 <= i < names_in(buffer).len() ==> !encode_utf8(
                #[trigger] names_in(buffer)[i],
            ).contains(0),
{
    list_end_is_first(buffer, 0);
    let found = list_end(buffer, 0);
    assert(found == end) by {
        if found < end {
            assert(ends_at(buffer, found));
            assert(buffer[found] == 0 && buffer[found + 1] == 0);
        }
        if end < found {
            assert(ends_at(buffer, end));
        }
    }
    split_undone_by_join(buffer.take(end));
    names_encode_to_their_parts(buffer);
    names_hold_no_zero(buffer);
    assert(encodings(names_in(buffer)) =~= name_parts(buffer));
}

/// The names by their places in the buffer: where parts without zero bytes stand one
/// behind the other, each followed by one zero byte and the last by two, the names
/// have exactly the bytes of these parts.
pub proof fn placed_names_are_read(buffer: Seq<u8>, starts: Seq<int>, ends: Seq<int>)
    requires
        valid_utf8(buffer),
        starts.len() == ends.len(),
        starts.len() >= 1,
        starts[0] == 0,
        forall|i: int|
            #![trigger starts[i], ends[i]]
            0 <= i < starts.len() ==> {
                &&& starts[i] < ends[i]
                &&& ends[i] + 1 < buffer.len()
                &&& buffer[ends[i]] == 0
                &&& !buffer.subrange(starts[i], ends[i]).contains(0)
            },
        forall|i: int, j: int|
            #![trigger starts[j], ends[i]]
            0 <= i < ends.len() - 1 && j == i + 1 ==> starts[j] == ends[i] + 1,
        buffer[ends.last() + 1] == 0,
    ensures
        names_in(buffer).len() == starts.len(),
        forall|i: int|
            0 <= i < starts.len() ==> encode_utf8(#[trigger] names_in(buffer)[i])
                == buffer.subrange(starts[i], ends[i]),
{
    let count = starts.len() as int;
    let parts = Seq::new(starts.len(), |i: int| buffer.subrange(starts[i], ends[i]));
    assert forall|i: int| 0 <= i < parts.len() implies (#[trigger] parts[i]).len() > 0
        && !parts[i].contains(0) by {
        assert(starts[i] < ends[i]);
        starts_are_ordered(starts, ends, i);
    }
    placed_parts_join(buffer, starts, ends, 0);
    assert(parts.skip(0) =~= parts);
    let last = ends[count - 1];
    assert(starts[count - 1] < ends[count - 1]);
    starts_are_ordered(starts, ends, count - 1);
    let rest = buffer.skip(last + 2);
    assert(join_with_zeros(parts) + seq![0u8, 0u8] + rest =~= buffer);
    written_names_are_read(parts, rest);
    names_encode_to_their_parts(buffer);
}

/// No part starts before the buffer.
proof fn starts_are_ordered(starts: Seq<int>, ends: Seq<int>, i: int)
    requires
        starts.len() == ends.len(),
        0 <= i < starts.len(),
        starts[0] == 0,
        forall|k: int|
            #![trigger starts[k], ends[k]]
            0 <= k < starts.len() ==> starts[k] < ends[k],
        forall|k: int, j: int|
            #![trigger starts[j], ends[k]]
            0 <= k < ends.len() - 1 && j == k + 1 ==> starts[j] == ends[k] + 1,
    ensures
        0 <= starts[i],
    decreases i,
{
    if i > 0 {
        starts_are_ordered(starts, ends, i - 1);
        assert(starts[i - 1] < ends[i - 1]);
        assert(starts[i] == ends[i - 1] + 1);
    }
}

/// Parts that stand one behind the other with a zero byte between each two of them
/// are, joined with zero bytes, what stands there.
proof fn placed_parts_join(buffer: Seq<u8>, starts: Seq<int>, ends: Seq<int>, first: int)
    requires
        starts.len() == ends.len(),
        0 <= first < starts.len(),
        starts[0] == 0,
        forall|i: int|
            #![trigger starts[i], ends[i]]
            0 <= i < starts.len() ==> starts[i] < ends[i] && ends[i] < buffer.len()
                && buffer[ends[i]] == 0,
        forall|i: int, j: int|
            #![trigger starts[j], ends[i]]
            0 <= i < ends.len() - 1 && j == i + 1 ==> starts[j] == ends[i] + 1,
    ensures
        starts[first] < ends.last(),
        join_with_zeros(
            Seq::new(starts.len(), |i: int| buffer.subrange(starts[i], ends[i])).skip(first),
        ) == buffer.subrange(starts[first], ends.last()),
    decreases starts.len() - first,
{
    let parts = Seq::new(starts.len(), |i: int| buffer.subrange(starts[i], ends[i]));
    let here = parts.skip(first);
    assert(starts[first] < ends[first]);
    starts_are_ordered(starts, ends, first);
    if first < starts.len() - 1 {
        placed_parts_join(buffer, starts, ends, first + 1);
        assert(starts[first + 1] == ends[first] + 1);
        assert(here.drop_first() =~= parts.skip(first + 1));
        assert(starts[starts.len() - 1] < ends[starts.len() - 1]);
        assert(join_with_zeros(here) =~= buffer.subrange(starts[first], ends.last()));
    }
}

} // verus!
