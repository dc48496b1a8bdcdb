//! The carry-over buffer that turns chunks of output into whole lines.

use crate::framing::{
    all_unbroken, lemma_pieces_unbroken, lemma_push_char, lemma_unbroken_is_rest, lines_of,
    rest_of, strip_return, unbroken, CARRIAGE_RETURN, LINE_FEED,
};
use vstd::prelude::*;
use vstd::std_specs::iter::IteratorSpec;

verus! {

/// Holds the characters that were received and belong to no completed line
/// yet.
pub struct LineFramer {
    buffer: String,
}

impl View for LineFramer {
    type V = Seq<char>;

    /// The characters that wait for their line feed.
    closed spec fn view(&self) -> Seq<char> {
        self.buffer@
    }
}

/// Takes the one carriage return that may end `segment` off it.
fn without_return(segment: String) -> (line: String)
    ensures
        line@ == strip_return(segment@),
{
    let mut line = segment;
    match line.pop() {
        Some(last) => {
            if last != CARRIAGE_RETURN {
                line.push(last);
                assert(line@ =~= segment@);
            }
        },
        None => {},
    }
    line
}

impl LineFramer {
    #[verifier::type_invariant]
    spec fn holds_no_line_feed(self) -> bool {
        unbroken(self.buffer@)
    }

    /// A framer that holds nothing.
    pub fn new() -> (framer: LineFramer)
        ensures
            framer@ == Seq::<char>::empty(),
    {
        LineFramer { buffer: String::new() }
    }

    /// The characters that are held.
    pub fn pending(&self) -> (text: &str)
        ensures
            text@ == self@,
    {
        self.buffer.as_str()
    }

    /// Appends `chunk` to what is held and returns the lines that this
    /// completes, in the order of their line feeds. What follows the last
    /// line feed stays held for the next call.
    pub fn feed(&mut self, chunk: &str) -> (lines: Vec<String>)
        ensures
            lines.deep_view() == lines_of(old(self)@ + chunk@),
            final(self)@ == rest_of(old(self)@ + chunk@),
            unbroken(final(self)@),
            all_unbroken(lines.deep_view()),
            unbroken(chunk@) ==> lines@.len() == 0 && final(self)@ == old(self)@ + chunk@,
    {
        proof {
            use_type_invariant(&*self);
        }
        let ghost held = self.buffer@;
        let mut line = String::new();
        core::mem::swap(&mut self.buffer, &mut line);
        let mut lines: Vec<String> = Vec::new();
        let mut chars = chunk.chars();
        let ghost mut taken: int = 0;
        proof {
            broadcast use vstd::string::group_string_axioms;
            assert(held + chunk@.take(0) =~= held);
            lemma_unbroken_is_rest(held);
            assert(lines.deep_view() =~= lines_of(held));
        }
        loop
            invariant
                0 <= taken <= chunk@.len(),
                chars.remaining() == chunk@.skip(taken),
                lines.deep_view() == lines_of(held + chunk@.take(taken)),
                line@ == rest_of(held + chunk@.take(taken)),
            ensures
                taken == chunk@.len(),
            decreases chunk@.len() - taken,
        {
            proof {
                broadcast use vstd::string::group_string_axioms;
            }
            let ghost before = held + chunk@.take(taken);
            let ghost emitted = lines.deep_view();
            match chars.next() {
                None => {
                    break;
                },
                Some(c) => {
                    proof {
                        assert(c == chunk@[taken]);
                        assert(held + chunk@.take(taken + 1) =~= before.push(c));
                        assert(chunk@.skip(taken).drop_first() =~= chunk@.skip(taken + 1));
                        lemma_push_char(before, c);
                    }
                    if c == LINE_FEED {
                        lines.push(without_return(line));
                        line = String::new();
                        assert(lines.deep_view() =~= emitted.push(strip_return(rest_of(before))));
                    } else {
                        line.push(c);
                    }
                    proof {
                        taken = taken + 1;
                    }
                },
            }
        }
        proof {
            assert(chunk@.take(taken) =~= chunk@);
            lemma_pieces_unbroken(held + chunk@);
            if unbroken(chunk@) {
                assert(unbroken(held + chunk@));
                lemma_unbroken_is_rest(held + chunk@);
            }
        }
        self.buffer = line;
        lines
    }
}

} // verus!
