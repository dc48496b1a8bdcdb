//! The mathematical model of line framing.
//!
//! A stream of characters is cut at every line feed. The pieces before the
//! cuts are the raw segments, what follows the last cut is the rest. A line
//! is a raw segment without the carriage return that may end it.

use vstd::prelude::*;

verus! {

/// The character that ends a line.
pub const LINE_FEED: char = '\n';

/// The character that, directly before a line feed, belongs to the separator.
pub const CARRIAGE_RETURN: char = '\r';

/// True when `text` holds no line feed.
pub open spec fn unbroken(text: Seq<char>) -> bool {
    forall|i: int| 0 <= i < text.len() ==> text[i] != LINE_FEED
}

/// True when some line feed of `text` stands directly behind a carriage
/// return.
pub open spec fn has_return_before_feed(text: Seq<char>) -> bool {
    exists|i: int|
        0 < i < text.len() && text[i] == LINE_FEED && #[trigger] text[i - 1] == CARRIAGE_RETURN
}

/// What follows the last line feed of `text`: all of it when there is none.
pub open spec fn rest_of(text: Seq<char>) -> Seq<char>
    decreases text.len(),
{
    if text.len() == 0 || text.last() == LINE_FEED {
        Seq::empty()
    } else {
        rest_of(text.drop_last()).push(text.last())
    }
}

/// The pieces of `text` that a line feed ends, in order and without that
/// line feed.
pub open spec fn segments_of(text: Seq<char>) -> Seq<Seq<char>>
    decreases text.len(),
{
    if text.len() == 0 {
        Seq::empty()
    } else if text.last() == LINE_FEED {
        segments_of(text.drop_last()).push(rest_of(text.drop_last()))
    } else {
        segments_of(text.drop_last())
    }
}

/// `segment` without the one carriage return that may end it.
pub open spec fn strip_return(segment: Seq<char>) -> Seq<char> {
    if segment.len() > 0 && segment.last() == CARRIAGE_RETURN {
        segment.drop_last()
    } else {
        segment
    }
}

/// The completed lines of `text`: its raw segments, each without its
/// trailing carriage return.
pub open spec fn lines_of(text: Seq<char>) -> Seq<Seq<char>> {
    segments_of(text).map_values(|segment: Seq<char>| strip_return(segment))
}

/// Every piece followed by a line feed, one after the other.
pub open spec fn terminated(segments: Seq<Seq<char>>) -> Seq<char>
    decreases segments.len(),
{
    if segments.len() == 0 {
        Seq::empty()
    } else {
        terminated(segments.drop_last()) + segments.last().push(LINE_FEED)
    }
}

/// The stream that splits into `segments` and `rest`.
pub open spec fn joined(segments: Seq<Seq<char>>, rest: Seq<char>) -> Seq<char> {
    terminated(segments) + rest
}

/// True when no piece holds a line feed.
pub open spec fn all_unbroken(segments: Seq<Seq<char>>) -> bool {
    forall|k: int| 0 <= k < segments.len() ==> unbroken(#[trigger] segments[k])
}

/// How many line feeds `text` holds.
pub open spec fn feeds_in(text: Seq<char>) -> nat
    decreases text.len(),
{
    if text.len() == 0 {
        0
    } else if text.last() == LINE_FEED {
        feeds_in(text.drop_last()) + 1
    } else {
        feeds_in(text.drop_last())
    }
}

/// What a framer that held `pending` keeps after it was fed `chunks` one by
/// one.
pub open spec fn pending_after(pending: Seq<char>, chunks: Seq<Seq<char>>) -> Seq<char>
    decreases chunks.len(),
{
    if chunks.len() == 0 {
        pending
    } else {
        rest_of(pending_after(pending, chunks.drop_last()) + chunks.last())
    }
}

/// The lines that a framer that held `pending` emits while it is fed
/// `chunks` one by one, in the order of emission.
pub open spec fn emitted_by(pending: Seq<char>, chunks: Seq<Seq<char>>) -> Seq<Seq<char>>
    decreases chunks.len(),
{
    if chunks.len() == 0 {
        Seq::empty()
    } else {
        emitted_by(pending, chunks.drop_last()) + lines_of(
            pending_after(pending, chunks.drop_last()) + chunks.last(),
        )
    }
}

/// Appending one character to a stream either completes a segment or
/// lengthens the rest.
pub proof fn lemma_push_char(text: Seq<char>, c: char)
    ensures
        c == LINE_FEED ==> rest_of(text.push(c)) == Seq::<char>::empty() && segments_of(
            text.push(c),
        ) == segments_of(text).push(rest_of(text)) && lines_of(text.push(c)) == lines_of(
            text,
        ).push(strip_return(rest_of(text))),
        c != LINE_FEED ==> rest_of(text.push(c)) == rest_of(text).push(c) && segments_of(
            text.push(c),
        ) == segments_of(text) && lines_of(text.push(c)) == lines_of(text),
{
    assert(text.push(c).drop_last() =~= text);
    assert(text.push(c).last() == c);
    if c == LINE_FEED {
        assert(lines_of(text.push(c)) =~= lines_of(text).push(strip_return(rest_of(text))));
    }
}

/// A stream without a line feed has no segment and is its own rest.
pub proof fn lemma_unbroken_is_rest(text: Seq<char>)
    requires
        unbroken(text),
    ensures
        rest_of(text) == text,
        segments_of(text) == Seq::<Seq<char>>::empty(),
        lines_of(text) == Seq::<Seq<char>>::empty(),
    decreases text.len(),
{
    if text.len() > 0 {
        lemma_unbroken_is_rest(text.drop_last());
        assert(rest_of(text.drop_last()).push(text.last()) =~= text);
    } else {
        assert(rest_of(text) =~= text);
    }
    assert(lines_of(text) =~= Seq::<Seq<char>>::empty());
}

/// Neither the rest nor any segment of a stream holds a line feed, and
/// neither does any line.
pub proof fn lemma_pieces_unbroken(text: Seq<char>)
    ensures
        unbroken(rest_of(text)),
        all_unbroken(segments_of(text)),
        all_unbroken(lines_of(text)),
        lines_of(text).len() == segments_of(text).len(),
    decreases text.len(),
{
    if text.len() > 0 {
        lemma_pieces_unbroken(text.drop_last());
    }
    assert forall|k: int| 0 <= k < lines_of(text).len() implies unbroken(
        #[trigger] lines_of(text)[k],
    ) by {
        assert(unbroken(segments_of(text)[k]));
    }
}

/// A stream is its segments, each followed by a line feed, and then its rest.
pub proof fn lemma_joined_pieces(text: Seq<char>)
    ensures
        joined(segments_of(text), rest_of(text)) == text,
    decreases text.len(),
{
    if text.len() == 0 {
        assert(joined(segments_of(text), rest_of(text)) =~= text);
    } else {
        let front = text.drop_last();
        lemma_joined_pieces(front);
        if text.last() == LINE_FEED {
            let segments = segments_of(front).push(rest_of(front));
            assert(segments.drop_last() =~= segments_of(front));
            assert(terminated(segments) =~= joined(segments_of(front), rest_of(front)).push(
                LINE_FEED,
            ));
            assert(joined(segments_of(text), rest_of(text)) =~= front.push(LINE_FEED));
            assert(front.push(LINE_FEED) =~= text);
        } else {
            assert(joined(segments_of(text), rest_of(text)) =~= joined(
                segments_of(front),
                rest_of(front),
            ).push(text.last()));
            assert(front.push(text.last()) =~= text);
        }
    }
}

/// Framing a stream in two parts gives what framing it whole gives: the
/// second part is framed behind the rest that the first part left.
pub proof fn lemma_framing_continues(first: Seq<char>, second: Seq<char>)
    ensures
        segments_of(first + second) == segments_of(first) + segments_of(rest_of(first) + second),
        lines_of(first + second) == lines_of(first) + lines_of(rest_of(first) + second),
        rest_of(first + second) == rest_of(rest_of(first) + second),
    decreases second.len(),
{
    let carried = rest_of(first);
    if second.len() == 0 {
        assert(first + second =~= first);
        assert(carried + second =~= carried);
        lemma_pieces_unbroken(first);
        lemma_unbroken_is_rest(carried);
        assert(segments_of(first) + segments_of(carried) =~= segments_of(first));
    } else {
        let front = second.drop_last();
        let c = second.last();
        lemma_framing_continues(first, front);
        assert(first + second =~= (first + front).push(c));
        assert(carried + second =~= (carried + front).push(c));
        lemma_push_char(first + front, c);
        lemma_push_char(carried + front, c);
        if c == LINE_FEED {
            assert((segments_of(first) + segments_of(carried + front)).push(
                rest_of(carried + front),
            ) =~= segments_of(first) + segments_of(carried + front).push(
                rest_of(carried + front),
            ));
        }
    }
    assert(lines_of(first + second) =~= lines_of(first) + lines_of(carried + second));
}

/// The split at line feeds is the only one: a stream put together from
/// pieces without line feeds splits into those pieces again.
pub proof fn lemma_split_is_unique(segments: Seq<Seq<char>>, rest: Seq<char>)
    requires
        all_unbroken(segments),
        unbroken(rest),
    ensures
        segments_of(joined(segments, rest)) == segments,
        rest_of(joined(segments, rest)) == rest,
    decreases segments.len(),
{
    lemma_unbroken_is_rest(rest);
    if segments.len() == 0 {
        assert(joined(segments, rest) =~= rest);
        assert(segments =~= Seq::<Seq<char>>::empty());
    } else {
        let front = segments.drop_last();
        let piece = segments.last();
        let empty = Seq::<char>::empty();
        assert(all_unbroken(front)) by {
            assert forall|k: int| 0 <= k < front.len() implies unbroken(#[trigger] front[k]) by {
                assert(front[k] == segments[k]);
            }
        }
        assert(unbroken(piece));
        lemma_split_is_unique(front, empty);
        assert(joined(front, empty) =~= terminated(front));
        // the last piece and its line feed, framed behind an empty rest
        lemma_unbroken_is_rest(piece);
        lemma_push_char(piece, LINE_FEED);
        assert(segments_of(piece.push(LINE_FEED)) =~= seq![piece]);
        lemma_framing_continues(terminated(front), piece.push(LINE_FEED));
        assert(empty + piece.push(LINE_FEED) =~= piece.push(LINE_FEED));
        assert(segments_of(terminated(segments)) =~= segments);
        assert(rest_of(terminated(segments)) =~= empty);
        // and the rest behind all of them
        lemma_framing_continues(terminated(segments), rest);
        assert(empty + rest =~= rest);
        assert(segments + Seq::<Seq<char>>::empty() =~= segments);
    }
}

/// Where no line feed stands directly behind a carriage return, the lines
/// are the raw segments themselves.
pub proof fn lemma_lines_without_returns(text: Seq<char>)
    requires
        !has_return_before_feed(text),
    ensures
        lines_of(text) == segments_of(text),
    decreases text.len(),
{
    if text.len() == 0 {
        assert(lines_of(text) =~= segments_of(text));
    } else {
        let front = text.drop_last();
        assert(!has_return_before_feed(front)) by {
            if has_return_before_feed(front) {
                let i = choose|i: int|
                    0 < i < front.len() && front[i] == LINE_FEED && #[trigger] front[i - 1]
                        == CARRIAGE_RETURN;
                assert(text[i] == LINE_FEED && text[i - 1] == CARRIAGE_RETURN);
            }
        }
        lemma_lines_without_returns(front);
        assert(front.push(text.last()) =~= text);
        lemma_push_char(front, text.last());
        if text.last() == LINE_FEED {
            let carried = rest_of(front);
            lemma_rest_is_suffix(front);
            if carried.len() > 0 && carried.last() == CARRIAGE_RETURN {
                assert(front.len() > 0);
                assert(front.last() == carried.last());
                assert(text[text.len() - 1] == LINE_FEED);
                assert(text[text.len() - 1 - 1] == CARRIAGE_RETURN);
            }
            assert(strip_return(carried) == carried);
        }
    }
}

/// The rest of a stream is the end of that stream.
pub proof fn lemma_rest_is_suffix(text: Seq<char>)
    ensures
        rest_of(text).len() <= text.len(),
        rest_of(text) == text.skip(text.len() - rest_of(text).len()),
    decreases text.len(),
{
    if text.len() == 0 || text.last() == LINE_FEED {
        assert(rest_of(text) =~= text.skip(text.len() as int));
    } else {
        let front = text.drop_last();
        lemma_rest_is_suffix(front);
        assert(rest_of(text) =~= text.skip(text.len() - rest_of(text).len()));
    }
}

/// Feeding chunks one by one emits the lines of the whole stream and keeps
/// its rest, however the stream was cut into chunks.
pub proof fn lemma_feeding_in_chunks(pending: Seq<char>, chunks: Seq<Seq<char>>)
    requires
        unbroken(pending),
    ensures
        emitted_by(pending, chunks) == lines_of(pending + chunks.flatten()),
        pending_after(pending, chunks) == rest_of(pending + chunks.flatten()),
    decreases chunks.len(),
{
    if chunks.len() == 0 {
        assert(pending + chunks.flatten() =~= pending);
        lemma_unbroken_is_rest(pending);
    } else {
        let front = chunks.drop_last();
        let chunk = chunks.last();
        lemma_feeding_in_chunks(pending, front);
        assert(front.push(chunk) =~= chunks);
        front.lemma_flatten_push(chunk);
        assert(pending + chunks.flatten() =~= (pending + front.flatten()) + chunk);
        lemma_framing_continues(pending + front.flatten(), chunk);
    }
}

/// Two ways of cutting one stream into chunks make a framer emit the same
/// lines and keep the same rest.
pub proof fn lemma_chunking_is_irrelevant(
    pending: Seq<char>,
    first: Seq<Seq<char>>,
    second: Seq<Seq<char>>,
)
    requires
        unbroken(pending),
        first.flatten() == second.flatten(),
    ensures
        emitted_by(pending, first) == emitted_by(pending, second),
        pending_after(pending, first) == pending_after(pending, second),
{
    lemma_feeding_in_chunks(pending, first);
    lemma_feeding_in_chunks(pending, second);
}

/// Nothing is lost and nothing comes twice: the raw segments behind the
/// emitted lines, each with its line feed, and then what the framer keeps,
/// are the stream that went in.
pub proof fn lemma_stream_is_kept(pending: Seq<char>, chunks: Seq<Seq<char>>)
    requires
        unbroken(pending),
    ensures
        emitted_by(pending, chunks) == segments_of(pending + chunks.flatten()).map_values(
            |segment: Seq<char>| strip_return(segment),
        ),
        joined(segments_of(pending + chunks.flatten()), pending_after(pending, chunks)) == pending
            + chunks.flatten(),
        !has_return_before_feed(pending + chunks.flatten()) ==> joined(
            emitted_by(pending, chunks),
            pending_after(pending, chunks),
        ) == pending + chunks.flatten(),
{
    let stream = pending + chunks.flatten();
    lemma_feeding_in_chunks(pending, chunks);
    lemma_joined_pieces(stream);
    if !has_return_before_feed(stream) {
        lemma_lines_without_returns(stream);
    }
}

/// Every line feed completes exactly one line, an empty one too.
pub proof fn lemma_one_line_per_feed(text: Seq<char>)
    ensures
        lines_of(text).len() == feeds_in(text),
        segments_of(text).len() == feeds_in(text),
    decreases text.len(),
{
    if text.len() > 0 {
        lemma_one_line_per_feed(text.drop_last());
    }
}

} // verus!
