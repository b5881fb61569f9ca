//! The local escape sequence: `Ctrl-]` then `q` disconnects.
use vstd::prelude::*;

verus! {

/// `Ctrl-]` — begins the local escape sequence.
pub const ESCAPE: u8 = 0x1d;

/// `q` — behind [`ESCAPE`] it asks to quit.
pub const QUIT: u8 = 0x71;

/// The bytes held back from the calls before: a lone `Ctrl-]`, or nothing.
pub open spec fn held(escaped: bool) -> Seq<u8> {
    if escaped {
        seq![ESCAPE]
    } else {
        Seq::empty()
    }
}

/// Whether the escape sequence stands in `typed` at position `i`.
pub open spec fn quits_at(typed: Seq<u8>, i: int) -> bool {
    0 <= i < typed.len() - 1 && typed[i] == ESCAPE && typed[i + 1] == QUIT
}

/// Whether the escape sequence stands in `typed` at position `i` and nowhere
/// before.
pub open spec fn quits_first_at(typed: Seq<u8>, i: int) -> bool {
    quits_at(typed, i) && forall|j: int| 0 <= j < i ==> !quits_at(typed, j)
}

/// Whether the escape sequence stands anywhere in `typed`.
pub open spec fn quits(typed: Seq<u8>) -> bool {
    exists|i: int| quits_first_at(typed, i)
}

/// The bytes of `typed` to forward: those in front of the escape sequence; or
/// all of them, but for a `Ctrl-]` at the very end, which is held.
pub open spec fn forwarded(typed: Seq<u8>) -> Seq<u8> {
    if quits(typed) {
        typed.take(choose|i: int| quits_first_at(typed, i))
    } else if typed.len() > 0 && typed.last() == ESCAPE {
        typed.drop_last()
    } else {
        typed
    }
}

/// Whether a `Ctrl-]` is held after `typed`.
pub open spec fn holds(typed: Seq<u8>) -> bool {
    !quits(typed) && typed.len() > 0 && typed.last() == ESCAPE
}

/// Strip the `Ctrl-]` `q` escape sequence from `input`, returning the bytes to
/// forward and whether the user asked to quit. A lone `Ctrl-]` is held across
/// calls via `escaped`; if not followed by `q` it is forwarded verbatim.
pub fn filter_escape(input: &[u8], escaped: &mut bool) -> (result: (Vec<u8>, bool))
    ensures
        result.0@ == forwarded(held(*old(escaped)) + input@),
        result.1 == quits(held(*old(escaped)) + input@),
        *final(escaped) == holds(held(*old(escaped)) + input@),
        result.0@.len() <= input@.len() + 1,
{
    let ghost before = held(*escaped);
    let ghost typed = before + input@;
    let mut out: Vec<u8> = Vec::new();
    let mut i: usize = 0;
    assert(typed.take(before.len() as int) =~= before);
    while i < input.len()
        invariant
            i <= input@.len(),
            before.len() <= 1,
            typed == before + input@,
            before == held(*old(escaped)),
            typed.take(before.len() + i) == out@ + held(*escaped),
            !*escaped && before.len() + i > 0 ==> typed[before.len() + i - 1] != ESCAPE,
            forall|j: int| 0 <= j < before.len() + i - 1 ==> !quits_at(typed, j),
        decreases input@.len() - i,
    {
        let b = input[i];
        let ghost seen = before.len() + i;
        let ghost sent = out@;
        let ghost was_escaped = *escaped;
        assert(b == typed[seen as int]);
        assert(typed.take(seen + 1) =~= typed.take(seen as int).push(b));
        if *escaped {
            assert(typed.take(seen as int).last() == ESCAPE);
            if b == QUIT {
                *escaped = false;
                proof {
                    assert(quits_first_at(typed, seen - 1));
                    lemma_first_quit_is_unique(typed, seen - 1);
                    assert(out@ =~= typed.take(seen - 1));
                }
                return (out, true);
            }
            // The held Ctrl-] was not an escape; emit it now.
            out.push(ESCAPE);
            if b != ESCAPE {
                *escaped = false;
                out.push(b);
            }
            // Otherwise this one starts a fresh escape; keep waiting.
        } else if b == ESCAPE {
            *escaped = true;
        } else {
            out.push(b);
        }
        assert(typed.take(seen + 1) =~= out@ + held(*escaped));
        assert(seen > 0 ==> !quits_at(typed, seen - 1));
        i += 1;
    }
    proof {
        assert(typed.take(typed.len() as int) =~= typed);
        assert forall|j: int| !quits_first_at(typed, j) by {
            if quits_at(typed, j) {
                assert(0 <= j < before.len() + i - 1);
            }
        }
        if *escaped {
            assert(typed.last() == ESCAPE);
            assert(out@ =~= typed.drop_last());
        } else {
            assert(out@ =~= typed);
        }
    }
    (out, false)
}

/// There is only one first place for the escape sequence.
proof fn lemma_first_quit_is_unique(typed: Seq<u8>, i: int)
    requires
        quits_first_at(typed, i),
    ensures
        quits(typed),
        (choose|j: int| quits_first_at(typed, j)) == i,
{
    let j = choose|j: int| quits_first_at(typed, j);
    if i < j {
        assert(!quits_at(typed, i));
    } else if j < i {
        assert(!quits_at(typed, j));
    }
}

/// Wherever the escape sequence occurs, it occurs for a first time.
proof fn lemma_some_quit_is_first(typed: Seq<u8>, i: int)
    requires
        quits_at(typed, i),
    ensures
        quits(typed),
    decreases i,
{
    if quits_first_at(typed, i) {
    } else {
        let j = choose|j: int| 0 <= j < i && quits_at(typed, j);
        lemma_some_quit_is_first(typed, j);
    }
}

/// The user quits exactly by typing `Ctrl-]` and `q` directly behind it, be it
/// over two calls.
pub proof fn law_quit_is_the_sequence(typed: Seq<u8>)
    ensures
        quits(typed) <==> exists|i: int| quits_at(typed, i),
{
    if quits(typed) {
        let i = choose|i: int| quits_first_at(typed, i);
        assert(quits_at(typed, i));
    }
    if exists|i: int| quits_at(typed, i) {
        let i = choose|i: int| quits_at(typed, i);
        lemma_some_quit_is_first(typed, i);
    }
}

/// Nothing is lost and nothing is made up: as long as the user does not quit,
/// what was forwarded and what is held make up what was typed.
pub proof fn law_no_byte_is_lost(typed: Seq<u8>)
    ensures
        !quits(typed) ==> forwarded(typed) + held(holds(typed)) == typed,
        quits(typed) ==> (forwarded(typed) + seq![ESCAPE, QUIT]).is_prefix_of(typed),
{
    if quits(typed) {
        let i = choose|i: int| quits_first_at(typed, i);
        assert(forwarded(typed) + seq![ESCAPE, QUIT] =~= typed.take(i + 2));
    } else if holds(typed) {
        assert(typed.drop_last() + seq![ESCAPE] =~= typed);
    } else {
        assert(typed + Seq::<u8>::empty() =~= typed);
    }
}

/// Input without a `Ctrl-]` passes through unchanged.
pub proof fn law_plain_input_passes(typed: Seq<u8>)
    requires
        !typed.contains(ESCAPE),
    ensures
        !quits(typed),
        forwarded(typed) == typed,
        !holds(typed),
{
    assert forall|i: int| !quits_first_at(typed, i) by {
        if quits_at(typed, i) {
            assert(typed.contains(typed[i]));
        }
    }
    if typed.len() > 0 {
        assert(typed.contains(typed.last()));
    }
}

/// How the typed bytes are cut into reads does not matter: filtering `input`
/// and then `more`, with what is held carried over, forwards and decides what
/// filtering both at once does. Once the user has quit, nothing that follows
/// changes that.
pub proof fn law_cuts_do_not_matter(typed: Seq<u8>, more: Seq<u8>)
    ensures
        !quits(typed) ==> {
            let next = held(holds(typed)) + more;
            &&& forwarded(typed + more) == forwarded(typed) + forwarded(next)
            &&& quits(typed + more) == quits(next)
            &&& holds(typed + more) == holds(next)
        },
        quits(typed) ==> {
            &&& forwarded(typed + more) == forwarded(typed)
            &&& quits(typed + more)
            &&& !holds(typed + more)
        },
{
    let all = typed + more;
    if quits(typed) {
        let i = choose|i: int| quits_first_at(typed, i);
        assert(quits_at(all, i));
        assert forall|j: int| 0 <= j < i implies !quits_at(all, j) by {
            assert(!quits_at(typed, j));
        }
        assert(quits_first_at(all, i));
        lemma_first_quit_is_unique(all, i);
        assert(all.take(i) =~= typed.take(i));
    } else {
        let kept = forwarded(typed);
        let next = held(holds(typed)) + more;
        law_no_byte_is_lost(typed);
        assert(all =~= kept + next);
        law_quit_is_the_sequence(typed);
        assert forall|j: int| quits_at(all, j) implies j >= kept.len() by {
            if j < kept.len() {
                assert(!quits_at(typed, j));
                if j == typed.len() - 1 {
                    assert(typed.last() == ESCAPE);
                }
            }
        }
        assert forall|j: int| quits_at(next, j) == quits_at(all, j + kept.len()) by {
            if j == -1 {
                assert(!quits_at(all, kept.len() - 1));
            }
        }
        if quits(next) {
            let i = choose|i: int| quits_first_at(next, i);
            assert(quits_at(all, i + kept.len()));
            assert forall|j: int| 0 <= j < i + kept.len() implies !quits_at(all, j) by {
                if quits_at(all, j) {
                    assert(quits_at(next, j - kept.len()));
                }
            }
            assert(quits_first_at(all, i + kept.len()));
            lemma_first_quit_is_unique(all, i + kept.len());
            assert(all.take(i + kept.len()) =~= kept + next.take(i));
        } else {
            law_quit_is_the_sequence(next);
            law_quit_is_the_sequence(all);
            if quits(all) {
                let i = choose|i: int| quits_at(all, i);
                assert(quits_at(next, i - kept.len()));
            }
            if next.len() > 0 {
                assert(all.last() == next.last());
                assert(all.drop_last() =~= kept + next.drop_last());
            } else {
                assert(all =~= kept);
                assert(kept + next =~= kept);
                if kept.len() > 0 {
                    assert(kept.last() == typed.last());
                }
            }
        }
    }
}

/// In plain terms: the user quits exactly if somewhere a byte 0x1d is followed by
/// a `q`; what is forwarded then holds no such pair and stands directly in front of
/// the first one. Otherwise a byte 0x1d is held exactly if it is the last one typed.
pub proof fn law_escape_in_plain_terms(typed: Seq<u8>)
    ensures
        quits(typed) <==> exists|i: int|
            0 <= i < typed.len() - 1 && #[trigger] typed[i] == 0x1d && typed[i + 1] == 0x71,
        quits(typed) ==> {
            let n = forwarded(typed).len() as int;
            &&& n + 1 < typed.len()
            &&& forwarded(typed) == typed.take(n)
            &&& typed[n] == 0x1d && typed[n + 1] == 0x71
            &&& forall|i: int|
                0 <= i < n ==> !(#[trigger] typed[i] == 0x1d && typed[i + 1] == 0x71)
            &&& !holds(typed)
        },
        !quits(typed) ==> {
            &&& holds(typed) <==> typed.len() > 0 && typed.last() == 0x1d
            &&& forwarded(typed).len() == typed.len() - (if holds(typed) {
                1int
            } else {
                0int
            })
            &&& forwarded(typed) == typed.take(forwarded(typed).len() as int)
        },
        held(true) == seq![0x1du8],
        held(false) == Seq::<u8>::empty(),
{
    law_quit_is_the_sequence(typed);
    if quits(typed) {
        let n = choose|i: int| quits_first_at(typed, i);
        assert(quits_at(typed, n));
        assert(forwarded(typed) == typed.take(n));
        assert forall|i: int| 0 <= i < n implies !(#[trigger] typed[i] == 0x1d && typed[i + 1]
            == 0x71) by {
            assert(!quits_at(typed, i));
        }
    } else {
        assert(forwarded(typed) =~= typed.take(forwarded(typed).len() as int));
    }
    if exists|i: int|
        0 <= i < typed.len() - 1 && #[trigger] typed[i] == 0x1d && typed[i + 1] == 0x71 {
        let i = choose|i: int|
            0 <= i < typed.len() - 1 && #[trigger] typed[i] == 0x1d && typed[i + 1] == 0x71;
        assert(quits_at(typed, i));
    }
}

} // verus!
