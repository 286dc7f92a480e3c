use vstd::prelude::*;

verus! {

/// The line feed byte that ends a line.
pub const NEWLINE: u8 = 10;

/// The carriage return byte that may stand before a line feed.
pub const CARRIAGE_RETURN: u8 = 13;

/// The bytes after the last line feed of `s`: a line that has not ended yet.
pub open spec fn tail_of(s: Seq<u8>) -> Seq<u8>
    decreases s.len(),
{
    if s.len() == 0 {
        seq![]
    } else if s.last() == NEWLINE {
        seq![]
    } else {
        tail_of(s.drop_last()).push(s.last())
    }
}

/// The lines of `s` that a line feed has ended, in order, without the line feed.
pub open spec fn lines_of(s: Seq<u8>) -> Seq<Seq<u8>>
    decreases s.len(),
{
    if s.len() == 0 {
        seq![]
    } else if s.last() == NEWLINE {
        lines_of(s.drop_last()).push(tail_of(s.drop_last()))
    } else {
        lines_of(s.drop_last())
    }
}

/// A line without one carriage return at its end, so that `\r\n` ends a line as `\n` does.
pub open spec fn without_cr(line: Seq<u8>) -> Seq<u8> {
    if line.len() > 0 && line.last() == CARRIAGE_RETURN {
        line.drop_last()
    } else {
        line
    }
}

pub proof fn lemma_push_byte(s: Seq<u8>, b: u8)
    ensures
        tail_of(s.push(b)) == (if b == NEWLINE {
            seq![]
        } else {
            tail_of(s).push(b)
        }),
        lines_of(s.push(b)) == (if b == NEWLINE {
            lines_of(s).push(tail_of(s))
        } else {
            lines_of(s)
        }),
{
    assert(s.push(b).drop_last() =~= s);
}

pub proof fn lemma_tail_settled(s: Seq<u8>)
    ensures
        tail_of(tail_of(s)) == tail_of(s),
        lines_of(tail_of(s)) == Seq::<Seq<u8>>::empty(),
    decreases s.len(),
{
    if s.len() > 0 && s.last() != NEWLINE {
        lemma_tail_settled(s.drop_last());
        lemma_push_byte(tail_of(s.drop_last()), s.last());
    }
}

/// Splitting bytes in two changes no line: the lines of `a + b` are the
/// lines of `a`, then those of `a`'s unfinished tail followed by `b`.
pub proof fn lemma_lines_split(a: Seq<u8>, b: Seq<u8>)
    ensures
        lines_of(a + b) == lines_of(a) + lines_of(tail_of(a) + b),
        tail_of(a + b) == tail_of(tail_of(a) + b),
    decreases b.len(),
{
    if b.len() == 0 {
        lemma_tail_settled(a);
        assert(a + b =~= a);
        assert(tail_of(a) + b =~= tail_of(a));
        assert(lines_of(a) + Seq::<Seq<u8>>::empty() =~= lines_of(a));
    } else {
        let x = b.last();
        let b0 = b.drop_last();
        lemma_lines_split(a, b0);
        assert(a + b =~= (a + b0).push(x));
        assert(tail_of(a) + b =~= (tail_of(a) + b0).push(x));
        lemma_push_byte(a + b0, x);
        lemma_push_byte(tail_of(a) + b0, x);
        assert((lines_of(a) + lines_of(tail_of(a) + b0)).push(tail_of(a + b0)) =~= lines_of(a) + lines_of(tail_of(a) + b0).push(tail_of(tail_of(a) + b0)));
    }
}

/// Removes one carriage return from the end of `line`, if it ends with one.
pub fn strip_cr(line: &mut Vec<u8>)
    ensures
        final(line)@ == without_cr(old(line)@),
{
    if line.len() > 0 && line[line.len() - 1] == CARRIAGE_RETURN {
        line.pop();
        assert(line@ =~= without_cr(old(line)@));
    }
}

} // verus!
