//! File paths as raw bytes, kept as they are spelled, and the canonical spelling by which they are
//! compared.
//!
//! Two spellings name the same path when they agree on whether they start at the root and have
//! the same components. Repeated separators, a trailing separator and `.` components do not
//! count, except for a `.` that opens a relative path. `..` is a component like any other.

use crate::bytes::{append_range, copy_bytes, same_bytes};
use vstd::prelude::*;
use vstd::std_specs::cmp::PartialEqSpec;

verus! {

/// The separator between the components of a path.
pub const SEPARATOR: u8 = 47;

/// The byte of the component `.`, which names the directory it stands in.
pub const DOT: u8 = 46;

/// The pieces of `path` between its separators, empty pieces included.
pub open spec fn segments(path: Seq<u8>) -> Seq<Seq<u8>>
    decreases path.len(),
{
    if path.len() == 0 {
        seq![Seq::<u8>::empty()]
    } else {
        let before = segments(path.drop_last());
        if path.last() == SEPARATOR {
            before.push(Seq::<u8>::empty())
        } else {
            before.drop_last().push(before.last().push(path.last()))
        }
    }
}

/// Whether the piece `segment` at position `index` is a component of its path.
pub open spec fn is_component(segment: Seq<u8>, index: int) -> bool {
    segment.len() > 0 && (segment != seq![DOT] || index == 0)
}

/// The pieces among `pieces` that are components, in their order.
pub open spec fn components_among(pieces: Seq<Seq<u8>>) -> Seq<Seq<u8>>
    decreases pieces.len(),
{
    if pieces.len() == 0 {
        Seq::empty()
    } else {
        let before = components_among(pieces.drop_last());
        if is_component(pieces.last(), pieces.len() - 1) {
            before.push(pieces.last())
        } else {
            before
        }
    }
}

/// The components of `path`.
pub open spec fn components(path: Seq<u8>) -> Seq<Seq<u8>> {
    components_among(segments(path))
}

/// Whether `path` starts at the root.
pub open spec fn is_absolute(path: Seq<u8>) -> bool {
    path.len() > 0 && path[0] == SEPARATOR
}

/// The parts written out with one separator between neighbours, and one in front of the first
/// for a path that starts at the root.
pub open spec fn render(absolute: bool, parts: Seq<Seq<u8>>) -> Seq<u8>
    decreases parts.len(),
{
    if parts.len() == 0 {
        if absolute {
            seq![SEPARATOR]
        } else {
            Seq::empty()
        }
    } else {
        let before = render(absolute, parts.drop_last());
        if parts.len() == 1 {
            before + parts.last()
        } else {
            before.push(SEPARATOR) + parts.last()
        }
    }
}

/// The canonical spelling of `path`.
pub open spec fn canonical(path: Seq<u8>) -> Seq<u8> {
    render(is_absolute(path), components(path))
}

/// Whether two spellings name the same path.
pub open spec fn same_path(a: Seq<u8>, b: Seq<u8>) -> bool {
    is_absolute(a) == is_absolute(b) && components(a) == components(b)
}

/// Whether `parts` could be the components of a path.
pub open spec fn are_components(absolute: bool, parts: Seq<Seq<u8>>) -> bool {
    forall|i: int|
        0 <= i < parts.len() ==> {
            &&& #[trigger] parts[i].len() > 0
            &&& !parts[i].contains(SEPARATOR)
            &&& parts[i] == seq![DOT] ==> i == 0 && !absolute
        }
}

proof fn lemma_segments_shape(path: Seq<u8>)
    ensures
        segments(path).len() >= 1,
        forall|i: int|
            0 <= i < segments(path).len() ==> !(#[trigger] segments(path)[i]).contains(SEPARATOR),
        is_absolute(path) ==> segments(path).len() >= 2 && segments(path)[0].len() == 0,
    decreases path.len(),
{
    if path.len() > 0 {
        let front = path.drop_last();
        lemma_segments_shape(front);
        let before = segments(front);
        if path.last() != SEPARATOR {
            let grown = before.last().push(path.last());
            assert(!before[before.len() - 1].contains(SEPARATOR));
            assert(!grown.contains(SEPARATOR)) by {
                if grown.contains(SEPARATOR) {
                    let k = choose|k: int| 0 <= k < grown.len() && grown[k] == SEPARATOR;
                    assert(before.last()[k] == SEPARATOR);
                }
            }
        }
        if is_absolute(path) && front.len() > 0 {
            assert(front[0] == path[0]);
        }
        if is_absolute(path) && front.len() == 0 {
            assert(segments(front) == seq![Seq::<u8>::empty()]);
        }
    }
}

proof fn lemma_components_among_shape(path: Seq<u8>, count: int)
    requires
        0 <= count <= segments(path).len(),
    ensures
        are_components(is_absolute(path), components_among(segments(path).take(count))),
        count == 0 ==> components_among(segments(path).take(count)).len() == 0,
    decreases count,
{
    lemma_segments_shape(path);
    let pieces = segments(path).take(count);
    if count > 0 {
        lemma_components_among_shape(path, count - 1);
        assert(pieces.drop_last() =~= segments(path).take(count - 1));
        assert(pieces.last() == segments(path)[count - 1]);
        let before = components_among(pieces.drop_last());
        let after = components_among(pieces);
        let last = pieces.last();
        assert forall|i: int| 0 <= i < after.len() implies {
            &&& #[trigger] after[i].len() > 0
            &&& !after[i].contains(SEPARATOR)
            &&& after[i] == seq![DOT] ==> i == 0 && !is_absolute(path)
        } by {
            if i < before.len() {
                assert(after[i] == before[i]);
            } else {
                assert(is_component(last, count - 1));
                assert(after[i] == last);
            }
        }
    }
}

proof fn lemma_components_shape(path: Seq<u8>)
    ensures
        are_components(is_absolute(path), components(path)),
{
    lemma_segments_shape(path);
    lemma_components_among_shape(path, segments(path).len() as int);
    assert(segments(path).take(segments(path).len() as int) =~= segments(path));
}

proof fn lemma_segments_extend(path: Seq<u8>, tail: Seq<u8>)
    requires
        !tail.contains(SEPARATOR),
    ensures
        segments(path + tail) == segments(path).drop_last().push(segments(path).last() + tail),
    decreases tail.len(),
{
    lemma_segments_shape(path);
    if tail.len() == 0 {
        assert(path + tail =~= path);
        assert(segments(path).last() + tail =~= segments(path).last());
        assert(segments(path).drop_last().push(segments(path).last()) =~= segments(path));
    } else {
        let front = tail.drop_last();
        assert(!front.contains(SEPARATOR)) by {
            if front.contains(SEPARATOR) {
                let k = choose|k: int| 0 <= k < front.len() && front[k] == SEPARATOR;
                assert(tail[k] == SEPARATOR);
            }
        }
        lemma_segments_extend(path, front);
        assert((path + tail).drop_last() =~= path + front);
        assert((path + tail).last() == tail.last());
        assert(tail[tail.len() - 1] != SEPARATOR);
        assert((segments(path).last() + front).push(tail.last()) =~= segments(path).last() + tail);
        assert(segments(path + front).drop_last() =~= segments(path).drop_last());
    }
}

/// The pieces of a rendered path: the parts, after an empty piece where it starts at the root.
spec fn rendered_segments(absolute: bool, parts: Seq<Seq<u8>>) -> Seq<Seq<u8>> {
    if absolute {
        if parts.len() == 0 {
            seq![Seq::<u8>::empty(), Seq::<u8>::empty()]
        } else {
            seq![Seq::<u8>::empty()] + parts
        }
    } else if parts.len() == 0 {
        seq![Seq::<u8>::empty()]
    } else {
        parts
    }
}

proof fn lemma_segments_of_render(absolute: bool, parts: Seq<Seq<u8>>)
    requires
        are_components(absolute, parts),
    ensures
        segments(render(absolute, parts)) == rendered_segments(absolute, parts),
        is_absolute(render(absolute, parts)) == absolute,
        parts.len() > 0 ==> render(absolute, parts).len() > 0,
    decreases parts.len(),
{
    let text = render(absolute, parts);
    if parts.len() == 0 {
        let empty = Seq::<u8>::empty();
        assert(segments(empty) =~= seq![Seq::<u8>::empty()]);
        if absolute {
            assert(text.drop_last() =~= empty);
            assert(segments(text) =~= rendered_segments(absolute, parts));
        }
    } else {
        let front = parts.drop_last();
        let last = parts.last();
        assert(parts[parts.len() - 1] == last);
        assert(are_components(absolute, front)) by {
            assert forall|i: int| 0 <= i < front.len() implies {
                &&& #[trigger] front[i].len() > 0
                &&& !front[i].contains(SEPARATOR)
                &&& front[i] == seq![DOT] ==> i == 0 && !absolute
            } by {
                assert(front[i] == parts[i]);
            }
        }
        lemma_segments_of_render(absolute, front);
        let before = render(absolute, front);
        if parts.len() == 1 {
            lemma_segments_extend(before, last);
            assert(Seq::<u8>::empty() + last =~= last);
            assert(segments(text) =~= rendered_segments(absolute, parts));
            if !absolute {
                assert(text =~= last);
                assert(last.contains(last[0]));
            }
        } else {
            let joined = before.push(SEPARATOR);
            assert(joined.drop_last() =~= before);
            assert(segments(joined) == segments(before).push(Seq::<u8>::empty()));
            lemma_segments_extend(joined, last);
            assert(Seq::<u8>::empty() + last =~= last);
            assert(segments(joined).drop_last() =~= segments(before));
            assert(segments(text) =~= rendered_segments(absolute, parts));
            assert(text[0] == before[0]);
        }
    }
}

proof fn lemma_components_among_rendered(absolute: bool, parts: Seq<Seq<u8>>)
    requires
        are_components(absolute, parts),
    ensures
        components_among(rendered_segments(absolute, parts)) == parts,
    decreases parts.len(),
{
    let pieces = rendered_segments(absolute, parts);
    if parts.len() == 0 {
        reveal_with_fuel(components_among, 3);
        assert(components_among(pieces) =~= parts);
    } else {
        let front = parts.drop_last();
        assert(parts[parts.len() - 1] == parts.last());
        assert forall|i: int| 0 <= i < front.len() implies {
            &&& #[trigger] front[i].len() > 0
            &&& !front[i].contains(SEPARATOR)
            &&& front[i] == seq![DOT] ==> i == 0 && !absolute
        } by {
            assert(front[i] == parts[i]);
        }
        lemma_components_among_rendered(absolute, front);
        assert(pieces.last() == parts.last());
        if front.len() > 0 {
            assert(pieces.drop_last() =~= rendered_segments(absolute, front));
        } else {
            reveal_with_fuel(components_among, 3);
        }
        assert(components_among(pieces) =~= parts);
    }
}

/// The canonical spelling names the same path as the spelling it was made from.
pub proof fn canonical_names_the_same_path(path: Seq<u8>)
    ensures
        same_path(canonical(path), path),
{
    lemma_components_shape(path);
    lemma_segments_of_render(is_absolute(path), components(path));
    lemma_components_among_rendered(is_absolute(path), components(path));
}

/// Two spellings name the same path exactly when their canonical spellings are equal, byte for
/// byte.
pub proof fn canonical_decides_same_path(a: Seq<u8>, b: Seq<u8>)
    ensures
        same_path(a, b) <==> canonical(a) == canonical(b),
{
    canonical_names_the_same_path(a);
    canonical_names_the_same_path(b);
}

/// A canonical spelling is its own canonical spelling.
pub proof fn canonical_is_stable(path: Seq<u8>)
    ensures
        canonical(canonical(path)) == canonical(path),
{
    canonical_names_the_same_path(path);
}

/// The pieces put together again, with a separator between neighbours.
spec fn joined(pieces: Seq<Seq<u8>>) -> Seq<u8>
    decreases pieces.len(),
{
    if pieces.len() <= 1 {
        pieces.last()
    } else {
        joined(pieces.drop_last()).push(SEPARATOR) + pieces.last()
    }
}

proof fn lemma_joined_segments(path: Seq<u8>)
    ensures
        joined(segments(path)) == path,
    decreases path.len(),
{
    let pieces = segments(path);
    if path.len() == 0 {
        assert(joined(pieces) =~= path);
    } else {
        let front = path.drop_last();
        let before = segments(front);
        lemma_joined_segments(front);
        lemma_segments_shape(front);
        if path.last() == SEPARATOR {
            assert(pieces.drop_last() =~= before);
            assert(joined(pieces) =~= front.push(SEPARATOR));
            assert(path =~= front.push(SEPARATOR));
        } else {
            assert(pieces.drop_last() =~= before.drop_last());
            assert(pieces.last() == before.last().push(path.last()));
            assert(front =~= joined(before));
            if before.len() == 1 {
                assert(front == before.last());
            } else {
                assert(front == joined(before.drop_last()).push(SEPARATOR) + before.last());
            }
            assert(joined(pieces) =~= front.push(path.last()));
            assert(path =~= front.push(path.last()));
        }
    }
}

proof fn lemma_segments_apart(a: Seq<u8>, b: Seq<u8>)
    ensures
        segments(a.push(SEPARATOR) + b) == segments(a) + segments(b),
    decreases b.len(),
{
    let path = a.push(SEPARATOR) + b;
    if b.len() == 0 {
        assert(path.drop_last() =~= a);
        assert(segments(path) =~= segments(a) + segments(b));
    } else {
        let front = b.drop_last();
        lemma_segments_apart(a, front);
        lemma_segments_shape(front);
        assert(path.drop_last() =~= a.push(SEPARATOR) + front);
        assert(path.last() == b.last());
        assert(segments(path) =~= segments(a) + segments(b));
    }
}

/// The pieces among `pieces` that are components behind a first piece.
spec fn later_components(pieces: Seq<Seq<u8>>) -> Seq<Seq<u8>>
    decreases pieces.len(),
{
    if pieces.len() == 0 {
        Seq::empty()
    } else {
        let before = later_components(pieces.drop_last());
        if pieces.last().len() > 0 && pieces.last() != seq![DOT] {
            before.push(pieces.last())
        } else {
            before
        }
    }
}

proof fn lemma_components_apart(first: Seq<Seq<u8>>, second: Seq<Seq<u8>>)
    requires
        first.len() > 0,
    ensures
        components_among(first + second) == components_among(first) + later_components(second),
    decreases second.len(),
{
    if second.len() == 0 {
        assert(first + second =~= first);
        assert(components_among(first) + later_components(second) =~= components_among(first));
    } else {
        lemma_components_apart(first, second.drop_last());
        assert((first + second).drop_last() =~= first + second.drop_last());
        assert(components_among(first + second) =~= components_among(first) + later_components(
            second,
        ));
    }
}

proof fn lemma_later_apart(first: Seq<Seq<u8>>, second: Seq<Seq<u8>>)
    ensures
        later_components(first + second) == later_components(first) + later_components(second),
    decreases second.len(),
{
    if second.len() == 0 {
        assert(first + second =~= first);
        assert(later_components(first) + later_components(second) =~= later_components(first));
    } else {
        lemma_later_apart(first, second.drop_last());
        assert((first + second).drop_last() =~= first + second.drop_last());
        assert(later_components(first + second) =~= later_components(first) + later_components(
            second,
        ));
    }
}

/// A piece that is empty or `.` behind a separator does not count.
proof fn lemma_idle_piece(a: Seq<u8>, piece: Seq<u8>, b: Seq<u8>)
    requires
        piece.len() == 0 || piece == seq![DOT],
    ensures
        same_path(a.push(SEPARATOR) + piece.push(SEPARATOR) + b, a.push(SEPARATOR) + b),
        a.len() > 0 ==> same_path(a.push(SEPARATOR) + piece, a),
{
    lemma_segments_shape(a);
    assert(!piece.contains(SEPARATOR));
    let empty = Seq::<u8>::empty();
    assert(segments(empty) =~= seq![empty]);
    lemma_segments_extend(empty, piece);
    assert(empty + piece =~= piece);
    assert(segments(piece) =~= seq![piece]);
    reveal_with_fuel(later_components, 2);
    assert(later_components(seq![piece]) =~= Seq::<Seq<u8>>::empty());
    let rest = piece.push(SEPARATOR) + b;
    let longer = a.push(SEPARATOR) + piece.push(SEPARATOR) + b;
    let shorter = a.push(SEPARATOR) + b;
    assert(longer =~= a.push(SEPARATOR) + rest);
    lemma_segments_apart(a, rest);
    lemma_segments_apart(piece, b);
    lemma_segments_apart(a, b);
    lemma_components_apart(segments(a), segments(rest));
    lemma_components_apart(segments(a), segments(b));
    lemma_later_apart(segments(piece), segments(b));
    assert(later_components(segments(rest)) =~= later_components(segments(b)));
    assert(longer[0] == shorter[0]);
    lemma_segments_apart(a, piece);
    lemma_components_apart(segments(a), segments(piece));
    assert(components(a.push(SEPARATOR) + piece) =~= components(a));
    if a.len() > 0 {
        assert((a.push(SEPARATOR) + piece)[0] == a[0]);
    }
}

/// A separator that is repeated does not change which path is named: not inside a path, and not
/// at its end.
pub proof fn repeated_separators_do_not_count(a: Seq<u8>, b: Seq<u8>)
    ensures
        same_path(a + seq![47u8, 47u8] + b, a + seq![47u8] + b),
        a.len() > 0 ==> same_path(a + seq![47u8], a),
{
    lemma_idle_piece(a, Seq::empty(), b);
    assert(a + seq![47u8, 47u8] + b =~= a.push(SEPARATOR) + Seq::<u8>::empty().push(SEPARATOR) + b);
    assert(a + seq![47u8] + b =~= a.push(SEPARATOR) + b);
    assert(a + seq![47u8] =~= a.push(SEPARATOR) + Seq::<u8>::empty());
}

/// A component `.` behind a separator does not change which path is named: not inside a path, and
/// not at its end.
pub proof fn dots_behind_separators_do_not_count(a: Seq<u8>, b: Seq<u8>)
    ensures
        same_path(a + seq![47u8, 46u8, 47u8] + b, a + seq![47u8] + b),
        a.len() > 0 ==> same_path(a + seq![47u8, 46u8], a),
{
    lemma_idle_piece(a, seq![DOT], b);
    assert(a + seq![47u8, 46u8, 47u8] + b =~= a.push(SEPARATOR) + seq![DOT].push(SEPARATOR) + b);
    assert(a + seq![47u8] + b =~= a.push(SEPARATOR) + b);
    assert(a + seq![47u8, 46u8] =~= a.push(SEPARATOR) + seq![DOT]);
}

/// The last piece of a path is what stands behind its last separator.
proof fn lemma_last_segment(path: Seq<u8>)
    ensures
        segments(path).len() >= 1,
        segments(path).last().len() <= path.len(),
        path.skip(path.len() - segments(path).last().len()) == segments(path).last(),
        segments(path).len() == 1 ==> segments(path).last() == path,
        segments(path).len() > 1 ==> segments(path).last().len() < path.len() && path[path.len()
            - segments(path).last().len() - 1] == SEPARATOR,
    decreases path.len(),
{
    if path.len() == 0 {
        assert(path.skip(0) =~= segments(path).last());
    } else {
        let front = path.drop_last();
        lemma_last_segment(front);
        let last = segments(path).last();
        if path.last() == SEPARATOR {
            assert(path.skip(path.len() as int) =~= last);
        } else {
            let before = segments(front).last();
            assert(last == before.push(path.last()));
            assert forall|i: int| 0 <= i < before.len() implies before[i] == path[path.len()
                - last.len() + i] by {
                assert(front.skip(front.len() - before.len())[i] == before[i]);
            }
            assert(path.skip(path.len() - last.len()) =~= last);
            if segments(path).len() == 1 {
                assert(last =~= path);
            }
        }
    }
}

/// Without a repeated separator and without a component `.` behind a separator, every piece but
/// the first and the last is a component.
proof fn lemma_inner_segments(path: Seq<u8>)
    requires
        forall|i: int|
            0 < i < path.len() ==> !(#[trigger] path[i] == SEPARATOR && path[i - 1] == SEPARATOR),
        forall|i: int|
            1 < i < path.len() ==> !(#[trigger] path[i] == SEPARATOR && path[i - 1] == DOT && path[i
                - 2] == SEPARATOR),
    ensures
        forall|k: int|
            0 < k < segments(path).len() - 1 ==> (#[trigger] segments(path)[k]).len() > 0
                && segments(path)[k] != seq![DOT],
        segments(path).len() > 1 && segments(path)[0].len() == 0 ==> is_absolute(path),
    decreases path.len(),
{
    if path.len() > 0 {
        let front = path.drop_last();
        assert forall|i: int| 0 < i < front.len() implies !(#[trigger] front[i] == SEPARATOR
            && front[i - 1] == SEPARATOR) by {
            assert(front[i] == path[i] && front[i - 1] == path[i - 1]);
        }
        assert forall|i: int| 1 < i < front.len() implies !(#[trigger] front[i] == SEPARATOR
            && front[i - 1] == DOT && front[i - 2] == SEPARATOR) by {
            assert(front[i] == path[i] && front[i - 1] == path[i - 1] && front[i - 2] == path[i
                - 2]);
        }
        lemma_inner_segments(front);
        lemma_last_segment(front);
        let before = segments(front);
        let pieces = segments(path);
        if front.len() > 0 {
            assert(front[0] == path[0]);
        }
        if path.last() == SEPARATOR {
            let at = path.len() - 1;
            assert(path[at] == SEPARATOR);
            let last = before.last();
            if before.len() > 1 {
                if last.len() == 0 {
                    assert(path[at - 1] == SEPARATOR);
                }
                if last == seq![DOT] {
                    assert(front.skip(front.len() - 1)[0] == DOT);
                    assert(path[at - 1] == DOT && path[at - 2] == SEPARATOR);
                }
            } else if last.len() == 0 {
                assert(front.len() == 0);
            }
            assert forall|k: int| 0 < k < pieces.len() - 1 implies (#[trigger] pieces[k]).len() > 0
                && pieces[k] != seq![DOT] by {
                assert(pieces[k] == before[k]);
                if k == before.len() - 1 {
                    assert(before[k] == last);
                }
            }
        } else {
            assert forall|k: int| 0 < k < pieces.len() - 1 implies (#[trigger] pieces[k]).len() > 0
                && pieces[k] != seq![DOT] by {
                assert(pieces[k] == before[k]);
            }
            if pieces.len() > 1 {
                assert(pieces[0] == before[0]);
            }
        }
    }
}

proof fn lemma_all_components(pieces: Seq<Seq<u8>>)
    requires
        forall|k: int| 0 <= k < pieces.len() ==> is_component(#[trigger] pieces[k], k),
    ensures
        components_among(pieces) == pieces,
    decreases pieces.len(),
{
    if pieces.len() > 0 {
        let front = pieces.drop_last();
        assert forall|k: int| 0 <= k < front.len() implies is_component(#[trigger] front[k], k) by {
            assert(front[k] == pieces[k]);
        }
        lemma_all_components(front);
        assert(is_component(pieces[pieces.len() - 1], pieces.len() - 1));
        assert(components_among(pieces) =~= pieces);
    } else {
        assert(components_among(pieces) =~= pieces);
    }
}

proof fn lemma_all_later(pieces: Seq<Seq<u8>>)
    requires
        forall|k: int|
            0 <= k < pieces.len() ==> (#[trigger] pieces[k]).len() > 0 && pieces[k] != seq![DOT],
    ensures
        later_components(pieces) == pieces,
    decreases pieces.len(),
{
    if pieces.len() > 0 {
        let front = pieces.drop_last();
        assert forall|k: int| 0 <= k < front.len() implies (#[trigger] front[k]).len() > 0
            && front[k] != seq![DOT] by {
            assert(front[k] == pieces[k]);
        }
        lemma_all_later(front);
        assert(pieces[pieces.len() - 1].len() > 0);
        assert(later_components(pieces) =~= pieces);
    } else {
        assert(later_components(pieces) =~= pieces);
    }
}

/// Whether a spelling is as short as it can be: no separator follows another, none stands at the
/// end unless it is all there is, and no component `.` follows a separator.
pub open spec fn is_shortest(path: Seq<u8>) -> bool {
    &&& forall|i: int|
        0 < i < path.len() ==> !(#[trigger] path[i] == 47u8 && path[i - 1] == 47u8)
    &&& path.len() > 1 ==> path[path.len() - 1] != 47u8
    &&& forall|i: int|
        0 < i < path.len() && #[trigger] path[i] == 46u8 && path[i - 1] == 47u8 ==> i + 1
            < path.len() && path[i + 1] != 47u8
}

/// Apart from repeated separators, separators at the end and `.` behind separators, every byte of
/// a spelling counts: a shortest spelling is the canonical one.
pub proof fn shortest_spellings_are_canonical(path: Seq<u8>)
    requires
        is_shortest(path),
    ensures
        canonical(path) == path,
{
    assert forall|i: int| 1 < i < path.len() implies !(#[trigger] path[i] == SEPARATOR && path[i
        - 1] == DOT && path[i - 2] == SEPARATOR) by {
        if path[i - 1] == DOT && path[i - 2] == SEPARATOR {
            assert(path[i - 1] == 46u8);
        }
    }
    lemma_inner_segments(path);
    lemma_last_segment(path);
    lemma_segments_shape(path);
    let pieces = segments(path);
    let last = pieces.last();
    if path.len() == 0 {
        assert(pieces =~= seq![path]);
        reveal_with_fuel(components_among, 2);
        assert(components(path) =~= Seq::<Seq<u8>>::empty());
        assert(canonical(path) =~= path);
    } else if path == seq![47u8] {
        assert(path.drop_last() =~= Seq::<u8>::empty());
        assert(segments(Seq::<u8>::empty()) =~= seq![Seq::<u8>::empty()]);
        assert(pieces =~= seq![Seq::<u8>::empty(), Seq::<u8>::empty()]);
        reveal_with_fuel(components_among, 3);
        assert(components(path) =~= Seq::<Seq<u8>>::empty());
        assert(canonical(path) =~= path);
    } else {
        if path.len() == 1 {
            assert(path =~= seq![path[0]]);
        }
        assert(path[path.len() - 1] != SEPARATOR);
        if pieces.len() > 1 {
            if last == seq![DOT] {
                assert(path.skip(path.len() - 1)[0] == DOT);
                assert(path[path.len() - 1] == 46u8);
            }
        }
        assert forall|k: int| 0 < k < pieces.len() implies (#[trigger] pieces[k]).len() > 0
            && pieces[k] != seq![DOT] by {
            if k == pieces.len() - 1 {
                assert(pieces[k] == last);
            }
        }
        let absolute = is_absolute(path);
        if absolute {
            let tail = pieces.skip(1);
            assert(pieces[0] =~= Seq::<u8>::empty());
            assert(pieces =~= seq![Seq::<u8>::empty()] + tail);
            lemma_components_apart(seq![Seq::<u8>::empty()], tail);
            reveal_with_fuel(components_among, 2);
            assert forall|k: int| 0 <= k < tail.len() implies (#[trigger] tail[k]).len() > 0
                && tail[k] != seq![DOT] by {
                assert(tail[k] == pieces[k + 1]);
            }
            lemma_all_later(tail);
            assert(components(path) =~= tail);
            assert(rendered_segments(true, tail) =~= pieces);
        } else {
            if pieces.len() == 1 {
                assert(last == path);
            }
            assert(pieces[0].len() > 0);
            lemma_all_components(pieces);
            assert(rendered_segments(false, pieces) =~= pieces);
        }
        lemma_components_shape(path);
        lemma_segments_of_render(absolute, components(path));
        lemma_joined_segments(path);
        lemma_joined_segments(canonical(path));
    }
}

/// Two shortest spellings name the same path only if they are equal, and a path that starts at the
/// root is never the same as one that does not.
pub proof fn different_paths_are_told_apart(a: Seq<u8>, b: Seq<u8>)
    requires
        same_path(a, b),
    ensures
        is_shortest(a) && is_shortest(b) ==> a == b,
        (a.len() > 0 && a[0] == 47u8) == (b.len() > 0 && b[0] == 47u8),
{
    canonical_decides_same_path(a, b);
    if is_shortest(a) && is_shortest(b) {
        shortest_spellings_are_canonical(a);
        shortest_spellings_are_canonical(b);
    }
}

/// To name the same path is an equivalence.
pub proof fn naming_the_same_path_is_an_equivalence(a: Seq<u8>, b: Seq<u8>, c: Seq<u8>)
    ensures
        same_path(a, a),
        same_path(a, b) ==> same_path(b, a),
        same_path(a, b) && same_path(b, c) ==> same_path(a, c),
{
}

/// `==` on paths tells whether they are the same.
pub proof fn equal_paths_are_the_same(a: FilePath, b: FilePath)
    ensures
        FilePath::obeys_eq_spec(),
        a.eq_spec(&b) == same_path(a@, b@),
{
}

/// Appends the piece `path[start..end]`, the one at position `index`, to the parts written so
/// far, if it is a component. Returns whether any part has been written.
fn append_component(
    text: &mut Vec<u8>,
    path: &[u8],
    start: usize,
    end: usize,
    index: usize,
    any: bool,
    Ghost(pieces): Ghost<Seq<Seq<u8>>>,
    Ghost(absolute): Ghost<bool>,
) -> (now_any: bool)
    requires
        start <= end <= path.len(),
        pieces.len() == index + 1,
        pieces.last() == path@.subrange(start as int, end as int),
        old(text)@ == render(absolute, components_among(pieces.drop_last())),
        any == (components_among(pieces.drop_last()).len() > 0),
    ensures
        final(text)@ == render(absolute, components_among(pieces)),
        now_any == (components_among(pieces).len() > 0),
{
    let ghost segment = pieces.last();
    let ghost parts = components_among(pieces.drop_last());
    let is_dot = end - start == 1 && path[start] == DOT;
    proof {
        if is_dot {
            assert(segment =~= seq![DOT]);
        } else {
            assert(segment.len() == end - start);
            assert(end - start == 1 ==> segment[0] == path@[start as int]);
            assert(seq![DOT].len() == 1 && seq![DOT][0] == DOT);
            assert(segment != seq![DOT]);
        }
    }
    if start == end || (is_dot && index != 0) {
        any
    } else {
        proof {
            assert(is_component(segment, index as int));
            assert(components_among(pieces) == parts.push(segment));
            assert(parts.push(segment).drop_last() =~= parts);
        }
        if any {
            text.push(SEPARATOR);
        }
        append_range(text, path, start, end);
        true
    }
}

/// Writes out the canonical spelling of `path`.
pub fn canonical_path(path: &[u8]) -> (text: Vec<u8>)
    ensures
        text@ == canonical(path@),
{
    let ghost absolute = is_absolute(path@);
    let mut text: Vec<u8> = Vec::new();
    if path.len() > 0 && path[0] == SEPARATOR {
        text.push(SEPARATOR);
    }
    let mut any = false;
    let mut start: usize = 0;
    let mut index: usize = 0;
    let mut i: usize = 0;
    proof {
        let pieces = segments(path@.take(0));
        assert(pieces.drop_last() =~= Seq::<Seq<u8>>::empty());
        assert(path@.subrange(0, 0) =~= Seq::<u8>::empty());
        assert(text@ =~= render(absolute, Seq::<Seq<u8>>::empty()));
    }
    while i < path.len()
        invariant
            start <= i <= path.len(),
            index <= i,
            absolute == is_absolute(path@),
            segments(path@.take(i as int)).len() == index + 1,
            segments(path@.take(i as int)).last() == path@.subrange(start as int, i as int),
            text@ == render(
                absolute,
                components_among(segments(path@.take(i as int)).drop_last()),
            ),
            any == (components_among(segments(path@.take(i as int)).drop_last()).len() > 0),
        decreases path.len() - i,
    {
        let ghost pieces = segments(path@.take(i as int));
        let ghost longer = path@.take(i + 1);
        proof {
            assert(longer.drop_last() =~= path@.take(i as int));
            assert(longer.last() == path@[i as int]);
        }
        if path[i] == SEPARATOR {
            any = append_component(
                &mut text,
                path,
                start,
                i,
                index,
                any,
                Ghost(pieces),
                Ghost(absolute),
            );
            proof {
                assert(segments(longer).drop_last() =~= pieces);
                assert(path@.subrange(i + 1, i + 1) =~= Seq::<u8>::empty());
            }
            start = i + 1;
            index += 1;
        } else {
            proof {
                assert(segments(longer).drop_last() =~= pieces.drop_last());
                assert(path@.subrange(start as int, i as int).push(path@[i as int])
                    =~= path@.subrange(start as int, i + 1));
            }
        }
        i += 1;
    }
    proof {
        assert(path@.take(i as int) =~= path@);
    }
    let _ = append_component(
        &mut text,
        path,
        start,
        i,
        index,
        any,
        Ghost(segments(path@)),
        Ghost(absolute),
    );
    text
}

/// A path, as it was spelled. Two are equal where their spellings name the same path.
#[derive(Debug)]
pub struct FilePath {
    text: Vec<u8>,
}

impl View for FilePath {
    type V = Seq<u8>;

    closed spec fn view(&self) -> Seq<u8> {
        self.text@
    }
}

impl FilePath {
    /// The path that `spelling` names, so spelled.
    pub fn new(spelling: &[u8]) -> (path: FilePath)
        ensures
            path@ == spelling@,
    {
        FilePath { text: copy_bytes(spelling) }
    }

    /// The spelling.
    pub fn as_bytes(&self) -> (text: &[u8])
        ensures
            text@ == self@,
    {
        self.text.as_slice()
    }

    /// Whether two paths are the same, however they are spelled.
    pub fn same(&self, other: &FilePath) -> (same: bool)
        ensures
            same == same_path(self@, other@),
            same == (canonical(self@) == canonical(other@)),
    {
        proof {
            canonical_decides_same_path(self@, other@);
        }
        let this = canonical_path(self.text.as_slice());
        let that = canonical_path(other.text.as_slice());
        same_bytes(this.as_slice(), that.as_slice())
    }

    /// An owned copy.
    pub fn duplicate(&self) -> (copy: FilePath)
        ensures
            copy@ == self@,
    {
        FilePath { text: copy_bytes(self.text.as_slice()) }
    }
}

impl Clone for FilePath {
    fn clone(&self) -> (copy: FilePath)
        ensures
            copy@ == self@,
    {
        self.duplicate()
    }
}

impl PartialEq for FilePath {
    fn eq(&self, other: &FilePath) -> (same: bool) {
        self.same(other)
    }
}

impl vstd::std_specs::cmp::PartialEqSpecImpl for FilePath {
    open spec fn obeys_eq_spec() -> bool {
        true
    }

    open spec fn eq_spec(&self, other: &FilePath) -> bool {
        same_path(self@, other@)
    }
}

} // verus!
