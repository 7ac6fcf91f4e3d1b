//! How a text is cut.

use vstd::prelude::*;

use crate::ingest::chunk::{
    chunks_of, cut_pieces, cut_sentences, no_chunks_iff_blank, nothing_filled, paragraphs_of,
    pieces_of, sentences_of, tokens_bounded, tokens_of, with_paragraph_end, with_paragraphs,
    with_piece, with_pieces, with_sentence, with_sentences, Filling,
};
use crate::pattern::{contains_of, find_from_is_first, find_of, occurs_at, split_str_of};
use crate::text::{blank, trim_end_of, trim_of, trim_start_of, white};

verus! {

// ---------------------------------------------------------------------------
// Tokens
// ---------------------------------------------------------------------------

/// A character that counts for a token of its own: a CJK ideograph, mark or
/// full-width form, kana or hangul, by its number.
pub open spec fn counts_alone(c: char) -> bool {
    ||| 19968 <= c as u32 <= 40959
    ||| 13312 <= c as u32 <= 19903
    ||| 12288 <= c as u32 <= 12351
    ||| 65280 <= c as u32 <= 65519
    ||| 12352 <= c as u32 <= 12543
    ||| 44032 <= c as u32 <= 55215
}

/// A text has a token for each such character, and one for every four others that
/// have begun.
pub proof fn tokens_are_counted(s: Seq<char>)
    ensures
        ({
            let alone = s.filter(|c: char| counts_alone(c)).len();
            let others = s.len() - alone;
            tokens_of(s) == alone + (others + 3) / 4
        }),
{
    alone_are_counted(s);
}

proof fn alone_are_counted(s: Seq<char>)
    ensures
        s.filter(|c: char| counts_alone(c)).len() == crate::ingest::chunk::cjk_count(s),
    decreases s.len(),
{
    reveal(Seq::filter);
    if s.len() > 0 {
        alone_are_counted(s.drop_last());
    }
}

// ---------------------------------------------------------------------------
// Sentences
// ---------------------------------------------------------------------------

/// A character that a sentence ends with.
pub open spec fn stop(c: char) -> bool {
    c == '.' || c == '!' || c == '?' || c == ';' || c == '\n' || c == '。' || c == '！' || c == '？'
        || c == '；'
}

/// Texts one behind the other.
pub open spec fn strung(parts: Seq<Seq<char>>) -> Seq<char>
    decreases parts.len(),
{
    if parts.len() == 0 {
        Seq::empty()
    } else {
        strung(parts.drop_last()) + parts.last()
    }
}

/// Nothing but white space stands before a stop within the text, but for one at
/// the end where `ended`.
pub open spec fn unbroken(s: Seq<char>, ended: bool) -> bool {
    forall|j: int|
        0 <= j < (if ended {
            s.len() - 1
        } else {
            s.len() as int
        }) && stop(#[trigger] s[j]) ==> blank(s.take(j + 1))
}

proof fn cut_where_they_stop(s: Seq<char>)
    ensures
        strung(cut_sentences(s).0) + cut_sentences(s).1 == s,
        unbroken(cut_sentences(s).1, false),
        forall|i: int|
            0 <= i < cut_sentences(s).0.len() ==> (#[trigger] cut_sentences(s).0[i]).len() > 0
                && stop(cut_sentences(s).0[i].last()) && !blank(cut_sentences(s).0[i]) && unbroken(
                cut_sentences(s).0[i],
                true,
            ),
    decreases s.len(),
{
    if s.len() == 0 {
        assert(strung(cut_sentences(s).0) + cut_sentences(s).1 =~= s);
    } else {
        let head = s.drop_last();
        let (done, open) = cut_sentences(head);
        cut_where_they_stop(head);
        let current = open.push(s.last());
        assert(head.push(s.last()) =~= s);
        assert((strung(done) + open).push(s.last()) =~= strung(done) + current);
        assert forall|j: int| 0 <= j < current.len() - 1 && stop(#[trigger] current[j]) implies blank(
            current.take(j + 1),
        ) by {
            assert(open[j] == current[j]);
            assert(current.take(j + 1) =~= open.take(j + 1));
        }
        assert(unbroken(current, true));
        let all = done.push(current);
        assert(all.drop_last() =~= done);
        let (after, rest) = cut_sentences(s);
        if stop(s.last()) && !blank(current) {
            assert(after == all);
            assert(strung(all) + Seq::<char>::empty() =~= strung(done) + current);
        } else {
            assert(after == done && rest == current);
            assert(unbroken(current, false)) by {
                assert forall|j: int| 0 <= j < current.len() && stop(
                    #[trigger] current[j],
                ) implies blank(current.take(j + 1)) by {
                    if j == current.len() - 1 {
                        assert(current.take(j + 1) =~= current);
                    }
                }
            }
        }
    }
}

/// Sentences, one behind the other, are the paragraph, but for white space at its
/// end. Each but the last ends with a stop, and within none does something stand
/// before a stop: a paragraph is cut behind every stop and nowhere else.
pub proof fn sentences_are_cut_at_stops(paragraph: Seq<char>)
    ensures
        exists|tail: Seq<char>|
            #[trigger] blank(tail) && strung(sentences_of(paragraph)) + tail == paragraph,
        forall|i: int|
            #![trigger sentences_of(paragraph)[i]]
            0 <= i < sentences_of(paragraph).len() ==> {
                let s = sentences_of(paragraph)[i];
                &&& !blank(s)
                &&& (i < sentences_of(paragraph).len() - 1 ==> stop(s.last()))
                &&& unbroken(s, stop(s.last()))
            },
{
    let (done, open) = cut_sentences(paragraph);
    let all = sentences_of(paragraph);
    cut_where_they_stop(paragraph);
    if blank(open) {
        assert(strung(all) + open == paragraph);
        assert forall|i: int| 0 <= i < all.len() implies {
            let s = #[trigger] all[i];
            &&& !blank(s)
            &&& (i < all.len() - 1 ==> stop(s.last()))
            &&& unbroken(s, stop(s.last()))
        } by {
            assert(all[i] == done[i]);
        }
    } else {
        let none = Seq::<char>::empty();
        assert(all.drop_last() =~= done);
        assert(strung(all) + none =~= paragraph);
        assert(blank(none));
        assert forall|i: int| 0 <= i < all.len() implies {
            let s = #[trigger] all[i];
            &&& !blank(s)
            &&& (i < all.len() - 1 ==> stop(s.last()))
            &&& unbroken(s, stop(s.last()))
        } by {
            if i < done.len() {
                assert(all[i] == done[i]);
            } else {
                assert(all[i] == open);
            }
        }
    }
}

// ---------------------------------------------------------------------------
// Filling
// ---------------------------------------------------------------------------

/// A chunk takes the next piece as long as both stay within the budget. One that
/// does not is closed, and the piece begins the next.
pub proof fn chunks_are_filled(f: Filling, piece: Seq<char>, goes_on: bool, max_tokens: nat)
    ensures
        f.tokens + tokens_of(piece) <= max_tokens && tokens_of(trim_of(f.current + piece))
            <= max_tokens ==> {
            let next = with_piece(f, piece, goes_on, max_tokens);
            &&& next.chunks == f.chunks
            &&& next.current == f.current + piece
        },
        (f.tokens + tokens_of(piece) > max_tokens || tokens_of(trim_of(f.current + piece))
            > max_tokens) && !blank(f.current) ==> {
            let next = with_piece(f, piece, goes_on, max_tokens);
            &&& next.chunks.len() == f.chunks.len() + 1
            &&& next.chunks.drop_last() == f.chunks
            &&& next.chunks.last().text == trim_of(f.current)
            &&& next.chunks.last().chunk_size == tokens_of(f.current)
            &&& next.chunks.last().chunk_index == f.chunks.len()
            &&& next.chunks.last().cut_type == (if f.at_paragraph {
                "paragraph_end"@
            } else if f.mid_sentence {
                "sentence_cut"@
            } else {
                "sentence_end"@
            })
            &&& next.current == piece
        },
        with_piece(f, piece, goes_on, max_tokens).mid_sentence == goes_on,
        !with_piece(f, piece, goes_on, max_tokens).at_paragraph,
{
    let next = with_piece(f, piece, goes_on, max_tokens);
    assert(Seq::<char>::empty() + piece =~= piece);
    if (f.tokens + tokens_of(piece) > max_tokens || tokens_of(trim_of(f.current + piece))
        > max_tokens) && !blank(f.current) {
        assert(next.chunks.drop_last() =~= f.chunks);
    }
}

/// How long texts are with one character between each two.
pub open spec fn span(parts: Seq<Seq<char>>) -> nat
    decreases parts.len(),
{
    if parts.len() == 0 {
        0
    } else {
        span(parts.drop_last()) + parts.last().len() + 1
    }
}

proof fn sentence_fits(f: Filling, sentence: Seq<char>, max: nat)
    requires
        f.tokens + sentence.len() <= max,
        f.current.len() + sentence.len() <= max,
    ensures
        ({
            let next = with_sentence(f, sentence, max);
            &&& next.chunks == f.chunks
            &&& next.current == f.current + sentence
            &&& next.tokens <= f.tokens + sentence.len()
        }),
{
    tokens_bounded(sentence);
    let pieces = pieces_of(sentence, max);
    assert(pieces == seq![sentence]);
    assert(pieces.drop_last() =~= Seq::empty());
    let joined = f.current + sentence;
    tokens_bounded(trim_of(joined));
    crate::text::trimmed_is_part(joined);
    assert(with_pieces(f, pieces.drop_last(), max) == f);
}

proof fn sentences_fit(f: Filling, sentences: Seq<Seq<char>>, max: nat)
    requires
        f.tokens + strung(sentences).len() <= max,
        f.current.len() + strung(sentences).len() <= max,
    ensures
        ({
            let next = with_sentences(f, sentences, max);
            &&& next.chunks == f.chunks
            &&& next.current == f.current + strung(sentences)
            &&& next.tokens <= f.tokens + strung(sentences).len()
        }),
    decreases sentences.len(),
{
    if sentences.len() == 0 {
        assert(f.current + strung(sentences) =~= f.current);
    } else {
        let head = sentences.drop_last();
        sentences_fit(f, head, max);
        let before = with_sentences(f, head, max);
        sentence_fits(before, sentences.last(), max);
        assert(f.current + strung(head) + sentences.last() =~= f.current + strung(sentences));
    }
}

proof fn paragraphs_fit(paragraphs: Seq<Seq<char>>, max: nat)
    requires
        span(paragraphs) <= max,
    ensures
        ({
            let f = with_paragraphs(nothing_filled(), paragraphs, max);
            &&& f.chunks.len() == 0
            &&& f.current.len() <= span(paragraphs)
            &&& f.tokens <= span(paragraphs)
        }),
    decreases paragraphs.len(),
{
    if paragraphs.len() > 0 {
        let head = paragraphs.drop_last();
        let p = paragraphs.last();
        paragraphs_fit(head, max);
        let before = with_paragraphs(nothing_filled(), head, max);
        let sentences = sentences_of(p);
        sentences_are_cut_at_stops(p);
        let tail = choose|tail: Seq<char>| #[trigger]
            blank(tail) && strung(sentences) + tail == p;
        assert(strung(sentences).len() + tail.len() == p.len());
        sentences_fit(before, sentences, max);
        let next = with_sentences(before, sentences, max);
        let ended = with_paragraph_end(next, max);
        assert(ended.chunks == next.chunks);
        assert(ended.current == next.current.push('\n'));
    }
}

proof fn split_spans(s: Seq<char>)
    ensures
        span(split_str_of(s, "\n\n"@)) <= s.len() + 1,
    decreases s.len(),
{
    reveal_strlit("\n\n");
    let pat = "\n\n"@;
    find_from_is_first(s, pat, 0);
    match find_of(s, pat) {
        Some(i) if pat.len() > 0 && 0 <= i && i + pat.len() <= s.len() => {
            let rest = s.skip(i + pat.len());
            split_spans(rest);
            span_prepends(s.take(i), split_str_of(rest, pat));
        },
        _ => {
            assert(seq![s].drop_last() =~= Seq::<Seq<char>>::empty());
            assert(span(seq![s].drop_last()) == 0);
        },
    }
}

proof fn span_prepends(first: Seq<char>, parts: Seq<Seq<char>>)
    ensures
        span(seq![first] + parts) == first.len() + 1 + span(parts),
    decreases parts.len(),
{
    if parts.len() == 0 {
        assert(seq![first] + parts =~= seq![first]);
        assert(seq![first].drop_last() =~= Seq::<Seq<char>>::empty());
        assert(span(seq![first].drop_last()) == 0);
    } else {
        assert((seq![first] + parts).drop_last() =~= seq![first] + parts.drop_last());
        span_prepends(first, parts.drop_last());
    }
}

proof fn filter_spans(parts: Seq<Seq<char>>, p: spec_fn(Seq<char>) -> bool)
    ensures
        span(parts.filter(p)) <= span(parts),
    decreases parts.len(),
{
    reveal(Seq::filter);
    if parts.len() > 0 {
        let head = parts.drop_last();
        filter_spans(head, p);
        let kept = head.filter(p);
        assert(kept.push(parts.last()).drop_last() =~= kept);
    }
}

/// A text that says something in fewer characters than the budget has tokens is one
/// chunk, which ends with a paragraph.
pub proof fn short_text_is_one_chunk(text: Seq<char>, max_tokens: nat)
    requires
        !blank(text),
        text.len() < max_tokens,
    ensures
        chunks_of(text, max_tokens).len() == 1,
        chunks_of(text, max_tokens)[0].chunk_index == 0,
        chunks_of(text, max_tokens)[0].cut_type == "paragraph_end"@,
{
    split_spans(text);
    filter_spans(split_str_of(text, "\n\n"@), crate::ingest::chunk::not_blank());
    paragraphs_fit(paragraphs_of(text), max_tokens);
    no_chunks_iff_blank(text, max_tokens);
}

/// White space behind a text makes no difference once its end is trimmed.
pub proof fn trimming_drops_blank_end(s: Seq<char>, tail: Seq<char>)
    requires
        blank(tail),
    ensures
        trim_end_of(s + tail) == trim_end_of(s),
    decreases tail.len(),
{
    if tail.len() > 0 {
        let rest = tail.drop_last();
        assert(white(tail[tail.len() - 1]));
        assert((s + tail).last() == tail.last());
        assert((s + tail).drop_last() =~= s + rest);
        assert forall|i: int| 0 <= i < rest.len() implies white(#[trigger] rest[i]) by {
            assert(rest[i] == tail[i]);
        }
        trimming_drops_blank_end(s, rest);
    } else {
        assert(s + tail =~= s);
    }
}

/// What follows a text that says something stays when its beginning is trimmed.
pub proof fn trimming_start_joins(s: Seq<char>, tail: Seq<char>)
    requires
        !blank(s),
    ensures
        trim_start_of(s + tail) == trim_start_of(s) + tail,
    decreases s.len(),
{
    if white(s.first()) {
        assert((s + tail).drop_first() =~= s.drop_first() + tail);
        assert(!blank(s.drop_first())) by {
            let i = choose|i: int| 0 <= i < s.len() && !white(#[trigger] s[i]);
            assert(s.drop_first()[i - 1] == s[i]);
        }
        trimming_start_joins(s.drop_first(), tail);
    }
}

/// White space behind a text makes no difference once it is trimmed.
pub proof fn trimming_ignores_blank_end(s: Seq<char>, tail: Seq<char>)
    requires
        !blank(s),
        blank(tail),
    ensures
        trim_of(s + tail) == trim_of(s),
{
    trimming_start_joins(s, tail);
    trimming_drops_blank_end(trim_start_of(s), tail);
}

/// Where such a text is one paragraph, the chunk is the text, but for white space
/// around it.
pub proof fn short_paragraph_is_kept_whole(text: Seq<char>, max_tokens: nat)
    requires
        !blank(text),
        text.len() < max_tokens,
        !contains_of(text, "\n\n"@),
    ensures
        chunks_of(text, max_tokens).len() == 1,
        chunks_of(text, max_tokens)[0].text == trim_of(text),
        !white(text.last()) ==> chunks_of(text, max_tokens)[0].chunk_size == tokens_of(
            text.push('\n'),
        ),
{
    reveal_strlit("\n\n");
    short_text_is_one_chunk(text, max_tokens);
    find_from_is_first(text, "\n\n"@, 0);
    if let Some(i) = find_of(text, "\n\n"@) {
        assert(occurs_at(text, "\n\n"@, i));
    }
    assert(split_str_of(text, "\n\n"@) == seq![text]);
    let keep = crate::ingest::chunk::not_blank();
    let one = seq![text];
    crate::lists::filter_ends(one, keep);
    crate::lists::filter_step(one, 0, keep);
    assert(one.take(1) =~= one);
    assert(one.take(0).filter(keep).push(text) =~= one);
    assert(paragraphs_of(text) == one);
    assert(one.drop_last() =~= Seq::<Seq<char>>::empty());
    let sentences = sentences_of(text);
    sentences_are_cut_at_stops(text);
    let tail = choose|tail: Seq<char>| #[trigger]
        blank(tail) && strung(sentences) + tail == text;
    assert(strung(sentences).len() + tail.len() == text.len());
    let start = nothing_filled();
    assert(with_paragraphs(start, one.drop_last(), max_tokens) == start);
    sentences_fit(start, sentences, max_tokens);
    let filled = with_sentences(start, sentences, max_tokens);
    assert(Seq::<char>::empty() + strung(sentences) =~= strung(sentences));
    let f = with_paragraph_end(filled, max_tokens);
    assert(with_paragraphs(start, one, max_tokens) == f);
    let said = strung(sentences);
    assert(!blank(said)) by {
        if blank(said) {
            assert forall|i: int| 0 <= i < text.len() implies white(#[trigger] text[i]) by {
                if i < said.len() {
                    assert(text[i] == said[i]);
                } else {
                    assert(text[i] == tail[i - said.len()]);
                }
            }
        }
    }
    let line = seq!['\n'];
    assert(blank(line));
    assert(f.current =~= said + line);
    assert(!blank(f.current)) by {
        let i = choose|i: int| 0 <= i < said.len() && !white(#[trigger] said[i]);
        assert(f.current[i] == said[i]);
    }
    trimming_ignores_blank_end(said, line);
    trimming_ignores_blank_end(said, tail);
    if !white(text.last()) {
        if tail.len() > 0 {
            assert(white(tail[tail.len() - 1]));
            assert(text.last() == tail[tail.len() - 1]);
        }
        assert(said =~= text);
        assert(f.current =~= text.push('\n'));
    }
}

// ---------------------------------------------------------------------------
// Long sentences
// ---------------------------------------------------------------------------

proof fn cut_pieces_give_all(s: Seq<char>, max: nat)
    ensures
        strung(cut_pieces(s, max).0) + cut_pieces(s, max).1 == s,
        s.len() > 0 ==> cut_pieces(s, max).1.len() > 0,
        s.len() == 0 ==> cut_pieces(s, max).0.len() == 0,
    decreases s.len(),
{
    if s.len() == 0 {
        assert(strung(cut_pieces(s, max).0) + cut_pieces(s, max).1 =~= s);
    } else {
        let head = s.drop_last();
        let (done, open) = cut_pieces(head, max);
        cut_pieces_give_all(head, max);
        assert(head.push(s.last()) =~= s);
        let longer = open.push(s.last());
        if tokens_of(longer) > max && open.len() > 0 {
            assert(done.push(open).drop_last() =~= done);
            assert(strung(done.push(open)) + seq![s.last()] =~= s);
        } else {
            assert(strung(done) + longer =~= s);
        }
    }
}

/// One more character of what follows the piece at `i` would be over the budget.
spec fn full(parts: Seq<Seq<char>>, rest: Seq<char>, i: int, max: nat) -> bool {
    let next = if i < parts.len() - 1 {
        parts[i + 1]
    } else {
        rest
    };
    next.len() > 0 && tokens_of(parts[i].push(next[0])) > max
}

proof fn cut_piece_is_full(s: Seq<char>, max: nat, i: int)
    requires
        0 <= i < cut_pieces(s, max).0.len(),
    ensures
        full(cut_pieces(s, max).0, cut_pieces(s, max).1, i, max),
    decreases s.len(),
{
    let head = s.drop_last();
    let (done, open) = cut_pieces(head, max);
    let (parts, rest) = cut_pieces(s, max);
    let longer = open.push(s.last());
    cut_pieces_give_all(head, max);
    if i < done.len() {
        cut_piece_is_full(head, max, i);
        assert(parts[i] == done[i]);
        if i < done.len() - 1 {
            assert(parts[i + 1] == done[i + 1]);
        } else {
            assert(open.len() > 0);
            if tokens_of(longer) > max {
                assert(parts[i + 1] == open);
            } else {
                assert(rest == longer);
                assert(longer[0] == open[0]);
            }
        }
    } else {
        assert(parts == done.push(open));
        assert(rest == seq![s.last()]);
        assert(parts[i] == open);
    }
}

/// A sentence within the budget is not cut. A longer one is cut into pieces that
/// give the sentence again, each so long that one more character would be over the
/// budget.
pub proof fn long_sentences_are_cut_late(sentence: Seq<char>, max_tokens: nat, i: int)
    requires
        max_tokens >= 1,
    ensures
        tokens_of(sentence) <= max_tokens ==> pieces_of(sentence, max_tokens) == seq![sentence],
        strung(pieces_of(sentence, max_tokens)) == sentence,
        0 <= i < pieces_of(sentence, max_tokens).len() - 1 ==> {
            let next = pieces_of(sentence, max_tokens)[i + 1];
            next.len() > 0 && tokens_of(pieces_of(sentence, max_tokens)[i].push(next[0]))
                > max_tokens
        },
{
    let pieces = pieces_of(sentence, max_tokens);
    if tokens_of(sentence) <= max_tokens {
        assert(pieces.drop_last() =~= Seq::<Seq<char>>::empty());
        assert(strung(pieces.drop_last()) =~= Seq::<char>::empty());
        assert(strung(pieces) =~= sentence);
    } else {
        let (done, open) = cut_pieces(sentence, max_tokens);
        cut_pieces_give_all(sentence, max_tokens);
        assert(pieces == done.push(open));
        assert(pieces.drop_last() =~= done);
        assert(strung(pieces) =~= sentence);
        if 0 <= i < pieces.len() - 1 {
            cut_piece_is_full(sentence, max_tokens, i);
            assert(pieces[i] == done[i]);
            if i < done.len() - 1 {
                assert(pieces[i + 1] == done[i + 1]);
            } else {
                assert(pieces[i + 1] == open);
            }
        }
    }
}

} // verus!
