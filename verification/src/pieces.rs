//! What stands in a document: a text and the pieces that it holds.

use vstd::prelude::*;

verus! {

/// Whether `piece` stands in `text` at `i`.
pub open spec fn stands_at(text: Seq<char>, piece: Seq<char>, i: int) -> bool {
    0 <= i && i + piece.len() <= text.len() && text.subrange(i, i + piece.len()) == piece
}

/// Whether `piece` stands somewhere in `text`.
pub open spec fn holds(text: Seq<char>, piece: Seq<char>) -> bool {
    exists|i: int| #[trigger] stands_at(text, piece, i)
}

/// Whether `text` starts with `head`.
pub open spec fn opens(text: Seq<char>, head: Seq<char>) -> bool {
    head.len() <= text.len() && text.take(head.len() as int) == head
}

pub proof fn lemma_opens_itself(text: Seq<char>)
    ensures
        opens(text, text),
{
    assert(text.take(text.len() as int) =~= text);
}

/// What a text starts with, it starts with in part.
pub proof fn lemma_opens_with_less(text: Seq<char>, head: Seq<char>, more: Seq<char>)
    requires
        opens(text, head + more),
    ensures
        opens(text, head),
{
    let all = head + more;
    assert(text.take(head.len() as int) =~= all.take(head.len() as int)) by {
        assert forall|i: int| 0 <= i < head.len() implies text[i] == all[i] by {
            assert(text.take(all.len() as int)[i] == text[i]);
        }
    }
    assert(all.take(head.len() as int) =~= head);
}

/// Three parts that end the beginning of a text stand in it one behind the other.
pub proof fn lemma_three_parts(text: Seq<char>, x: Seq<char>, a: Seq<char>, b: Seq<char>, c: Seq<char>)
    requires
        opens(text, x + a + b + c),
    ensures
        holds(text, a + b + c),
{
    let head = x + a + b + c;
    let piece = a + b + c;
    let i = x.len() as int;
    assert(text.subrange(i, i + piece.len()) =~= piece) by {
        assert forall|k: int| 0 <= k < piece.len() implies text[i + k] == piece[k] by {
            assert(text.take(head.len() as int)[i + k] == text[i + k]);
            assert(head[i + k] == piece[k]);
        }
    }
    assert(stands_at(text, piece, i));
}

/// What a part of a text holds, the text holds.
pub proof fn lemma_part_of(x: Seq<char>, part: Seq<char>, y: Seq<char>)
    ensures
        forall|p: Seq<char>| #[trigger] holds(part, p) ==> holds(x + part + y, p),
        holds(x + part + y, part),
{
    let text = x + part + y;
    assert forall|p: Seq<char>| #[trigger] holds(part, p) implies holds(text, p) by {
        let i = choose|i: int| #[trigger] stands_at(part, p, i);
        let k = x.len() + i;
        assert(text.subrange(k, k + p.len()) =~= p) by {
            assert forall|j: int| 0 <= j < p.len() implies text[k + j] == p[j] by {
                assert(part.subrange(i, i + p.len())[j] == part[i + j]);
            }
        }
        assert(stands_at(text, p, k));
    }
    assert(text.subrange(x.len() as int, (x.len() + part.len()) as int) =~= part);
    assert(stands_at(text, part, x.len() as int));
}

/// What a text holds, a longer one holds.
pub proof fn lemma_holds_in_front(x: Seq<char>, y: Seq<char>)
    ensures
        forall|p: Seq<char>| #[trigger] holds(x, p) ==> holds(x + y, p),
        forall|p: Seq<char>| #[trigger] holds(y, p) ==> holds(x + y, p),
        holds(x + y, x),
        holds(x + y, y),
{
    lemma_part_of(Seq::empty(), x, y);
    lemma_part_of(x, y, Seq::empty());
    assert(Seq::<char>::empty() + x + y =~= x + y);
    assert(x + y + Seq::<char>::empty() =~= x + y);
}

/// What a line of a text holds, the text holds.
pub proof fn lemma_holds_through(text: Seq<char>, line: Seq<char>, piece: Seq<char>)
    requires
        holds(text, line),
        holds(line, piece),
    ensures
        holds(text, piece),
{
    let i = choose|i: int| #[trigger] stands_at(text, line, i);
    let x = text.take(i);
    let y = text.skip(i + line.len());
    lemma_part_of(x, line, y);
    assert(text =~= x + line + y);
}

} // verus!
