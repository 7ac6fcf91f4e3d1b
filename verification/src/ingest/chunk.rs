//! Text chunking on paragraph and sentence boundaries.
//!
//! Sizes are estimated tokens: a CJK character counts one, of the others four
//! make one.

use vstd::prelude::*;
use vstd::string::*;

use crate::lists::{filter_ends, filter_step};
use crate::pattern::{split_str, split_str_of};
use crate::text::{
    blank, chars_of, concat2, is_blank, owned, trim, trim_end_of, trim_of, trim_start_of,
    trimmed_is_part, views, white,
};
use crate::uid::{is_version_4, Uuid};

verus! {

/// A chunk of the source document.
#[derive(Debug)]
pub struct Chunk {
    pub id: Uuid,
    pub text: String,
    pub chunk_size: usize,
    pub chunk_index: usize,
    /// Where the chunk ends: `paragraph_end`, `sentence_end` or `sentence_cut`.
    pub cut_type: String,
}

/// What a [`Chunk`] holds besides its identifier, which is random.
pub struct ChunkRow {
    pub text: Seq<char>,
    pub chunk_size: nat,
    pub chunk_index: nat,
    pub cut_type: Seq<char>,
}

impl Chunk {
    pub open spec fn view(&self) -> ChunkRow {
        ChunkRow {
            text: self.text@,
            chunk_size: self.chunk_size as nat,
            chunk_index: self.chunk_index as nat,
            cut_type: self.cut_type@,
        }
    }
}

pub open spec fn chunk_views(chunks: Seq<Chunk>) -> Seq<ChunkRow> {
    chunks.map_values(|c: Chunk| c@)
}

// ---------------------------------------------------------------------------
// Token estimates
// ---------------------------------------------------------------------------

/// A CJK ideograph, mark, full-width form, kana or hangul syllable.
pub open spec fn cjk(c: char) -> bool {
    ||| 0x4E00 <= c as u32 <= 0x9FFF
    ||| 0x3400 <= c as u32 <= 0x4DBF
    ||| 0x3000 <= c as u32 <= 0x303F
    ||| 0xFF00 <= c as u32 <= 0xFFEF
    ||| 0x3040 <= c as u32 <= 0x30FF
    ||| 0xAC00 <= c as u32 <= 0xD7AF
}

/// How many characters of `s` are CJK.
pub open spec fn cjk_count(s: Seq<char>) -> nat
    decreases s.len(),
{
    if s.len() == 0 {
        0
    } else {
        cjk_count(s.drop_last()) + (if cjk(s.last()) {
            1nat
        } else {
            0
        })
    }
}

/// One token per CJK character, and one for every four others, rounded up.
pub open spec fn tokens_of(s: Seq<char>) -> nat {
    let others = s.len() - cjk_count(s);
    cjk_count(s) + ((others + 3) / 4) as nat
}

/// Whether `c` is a CJK character.
fn is_cjk(c: char) -> (r: bool)
    ensures
        r == cjk(c),
{
    let x = c as u32;
    (0x4E00 <= x && x <= 0x9FFF) || (0x3400 <= x && x <= 0x4DBF) || (0x3000 <= x && x <= 0x303F)
        || (0xFF00 <= x && x <= 0xFFEF) || (0x3040 <= x && x <= 0x30FF) || (0xAC00 <= x && x
        <= 0xD7AF)
}

proof fn cjk_count_bound(s: Seq<char>)
    ensures
        cjk_count(s) <= s.len(),
    decreases s.len(),
{
    if s.len() > 0 {
        cjk_count_bound(s.drop_last());
    }
}

proof fn cjk_count_adds(a: Seq<char>, b: Seq<char>)
    ensures
        cjk_count(a + b) == cjk_count(a) + cjk_count(b),
    decreases b.len(),
{
    if b.len() == 0 {
        assert(a + b =~= a);
    } else {
        assert((a + b).drop_last() =~= a + b.drop_last());
        assert((a + b).last() == b.last());
        cjk_count_adds(a, b.drop_last());
    }
}

/// A text has no more tokens than characters, and some if it has characters.
pub proof fn tokens_bounded(s: Seq<char>)
    ensures
        tokens_of(s) <= s.len(),
        s.len() > 0 ==> tokens_of(s) > 0,
{
    cjk_count_bound(s);
}

/// Two texts in a row have no more tokens than the two apart.
pub proof fn tokens_of_joined(a: Seq<char>, b: Seq<char>)
    ensures
        tokens_of(a + b) <= tokens_of(a) + tokens_of(b),
        tokens_of(a) <= tokens_of(a + b),
        tokens_of(b) <= tokens_of(a + b),
{
    cjk_count_adds(a, b);
    cjk_count_bound(a);
    cjk_count_bound(b);
}

/// A rough token count.
pub fn estimate_tokens(text: &str) -> (r: usize)
    ensures
        r == tokens_of(text@),
{
    let cs = chars_of(text);
    let n: usize = cs.len();
    let mut wide: usize = 0;
    let mut i: usize = 0;
    while i < n
        invariant
            i <= n,
            n == cs@.len(),
            wide <= i,
            wide == cjk_count(cs@.take(i as int)),
        decreases n - i,
    {
        assert(cs@.take(i + 1).drop_last() =~= cs@.take(i as int));
        if is_cjk(cs[i]) {
            wide += 1;
        }
        i += 1;
    }
    assert(cs@.take(n as int) =~= text@);
    let others: usize = n - wide;
    let quarters: usize = others / 4 + (if others % 4 == 0 {
        0
    } else {
        1
    });
    assert(quarters == (others + 3) / 4);
    wide + quarters
}

// ---------------------------------------------------------------------------
// Sentences
// ---------------------------------------------------------------------------

/// A character that ends a sentence.
pub open spec fn ends_sentence(c: char) -> bool {
    c == '。' || c == '！' || c == '？' || c == '.' || c == '!' || c == '?' || c == ';' || c == '；'
        || c == '\n'
}

/// The sentences that end within `s`, and what follows the last of them. A
/// terminator behind nothing but white space ends no sentence.
pub open spec fn cut_sentences(s: Seq<char>) -> (Seq<Seq<char>>, Seq<char>)
    decreases s.len(),
{
    if s.len() == 0 {
        (Seq::empty(), Seq::empty())
    } else {
        let (done, open) = cut_sentences(s.drop_last());
        let current = open.push(s.last());
        if ends_sentence(s.last()) && !blank(current) {
            (done.push(current), Seq::empty())
        } else {
            (done, current)
        }
    }
}

/// The sentences of a paragraph, each with its terminator; the rest, unless it
/// is white space, is one too.
pub open spec fn sentences_of(paragraph: Seq<char>) -> Seq<Seq<char>> {
    let (done, open) = cut_sentences(paragraph);
    if blank(open) {
        done
    } else {
        done.push(open)
    }
}

/// Whether `c` ends a sentence.
fn is_terminator(c: char) -> (r: bool)
    ensures
        r == ends_sentence(c),
{
    c == '。' || c == '！' || c == '？' || c == '.' || c == '!' || c == '?' || c == ';' || c == '；'
        || c == '\n'
}

/// The sentences of a paragraph, each with its terminator.
pub fn sentences(paragraph: &str) -> (r: Vec<String>)
    ensures
        views(r@) == sentences_of(paragraph@),
{
    let cs = chars_of(paragraph);
    let mut out: Vec<String> = Vec::new();
    let mut current = String::new();
    let mut i: usize = 0;
    assert(views(out@) =~= Seq::empty());
    assert(current@ =~= Seq::empty());
    while i < cs.len()
        invariant
            i <= cs@.len(),
            (views(out@), current@) == cut_sentences(cs@.take(i as int)),
        decreases cs@.len() - i,
    {
        assert(cs@.take(i + 1).drop_last() =~= cs@.take(i as int));
        let ghost done = views(out@);
        let c = cs[i];
        current.push(c);
        if is_terminator(c) && !is_blank(current.as_str()) {
            let ghost sentence = current@;
            out.push(current);
            assert(views(out@) =~= done.push(sentence));
            current = String::new();
            assert(current@ =~= Seq::empty());
        }
        i += 1;
    }
    assert(cs@.take(cs@.len() as int) =~= paragraph@);
    if !is_blank(current.as_str()) {
        let ghost done = views(out@);
        let ghost rest = current@;
        out.push(current);
        assert(views(out@) =~= done.push(rest));
    }
    out
}

// ---------------------------------------------------------------------------
// Chunks
// ---------------------------------------------------------------------------

/// Accepts every text but white space.
pub open spec fn not_blank() -> spec_fn(Seq<char>) -> bool {
    |p: Seq<char>| !blank(p)
}

/// The paragraphs of a text: what stands between its double line breaks, but for
/// white space.
pub open spec fn paragraphs_of(text: Seq<char>) -> Seq<Seq<char>> {
    split_str_of(text, "\n\n"@).filter(not_blank())
}

/// The chunk that holds `text`.
pub open spec fn chunk_of(text: Seq<char>, cut_type: Seq<char>, index: nat) -> ChunkRow {
    ChunkRow {
        text: trim_of(text),
        chunk_size: tokens_of(text),
        chunk_index: index,
        cut_type,
    }
}

/// The pieces of at most `max_tokens` tokens that end within `s`, each as long as
/// it can be, and the one that follows them.
pub open spec fn cut_pieces(s: Seq<char>, max_tokens: nat) -> (Seq<Seq<char>>, Seq<char>)
    decreases s.len(),
{
    if s.len() == 0 {
        (Seq::empty(), Seq::empty())
    } else {
        let (done, open) = cut_pieces(s.drop_last(), max_tokens);
        let longer = open.push(s.last());
        if tokens_of(longer) > max_tokens && open.len() > 0 {
            (done.push(open), seq![s.last()])
        } else {
            (done, longer)
        }
    }
}

/// A sentence in pieces within the budget: itself where it is within it. There is
/// nothing within a budget of no tokens, so that none is cut for it.
pub open spec fn pieces_of(sentence: Seq<char>, max_tokens: nat) -> Seq<Seq<char>> {
    if tokens_of(sentence) <= max_tokens || max_tokens == 0 {
        seq![sentence]
    } else {
        let (done, open) = cut_pieces(sentence, max_tokens);
        done.push(open)
    }
}

/// How far chunking has come: the finished chunks, the text of the one being
/// filled, the tokens of its pieces, and whether it ends with a paragraph or
/// within a sentence.
pub struct Filling {
    pub chunks: Seq<ChunkRow>,
    pub current: Seq<char>,
    pub tokens: nat,
    pub at_paragraph: bool,
    pub mid_sentence: bool,
}

/// The filling with its current chunk finished.
pub open spec fn flushed(f: Filling, cut_type: Seq<char>) -> Filling {
    Filling {
        chunks: f.chunks.push(chunk_of(f.current, cut_type, f.chunks.len())),
        current: Seq::empty(),
        tokens: 0,
        ..f
    }
}

/// Where the current chunk ends.
pub open spec fn ending_of(f: Filling) -> Seq<char> {
    if f.at_paragraph {
        "paragraph_end"@
    } else if f.mid_sentence {
        "sentence_cut"@
    } else {
        "sentence_end"@
    }
}

/// The current chunk has no room for a piece: the tokens of its pieces, or of the
/// text that they would make, are over the budget.
pub open spec fn crowded(f: Filling, piece: Seq<char>, max_tokens: nat) -> bool {
    f.tokens + tokens_of(piece) > max_tokens || tokens_of(trim_of(f.current + piece)) > max_tokens
}

/// The filling with room for a piece.
pub open spec fn with_room(f: Filling, piece: Seq<char>, max_tokens: nat) -> Filling {
    if !crowded(f, piece, max_tokens) {
        f
    } else if blank(f.current) {
        Filling { current: Seq::empty(), tokens: 0, ..f }
    } else {
        flushed(f, ending_of(f))
    }
}

/// The filling with one more piece of a sentence, which ends with it or goes on.
pub open spec fn with_piece(
    f: Filling,
    piece: Seq<char>,
    goes_on: bool,
    max_tokens: nat,
) -> Filling {
    let room = with_room(f, piece, max_tokens);
    Filling {
        chunks: room.chunks,
        current: room.current + piece,
        tokens: room.tokens + tokens_of(piece),
        at_paragraph: false,
        mid_sentence: goes_on,
    }
}

/// The filling with more pieces of a sentence that goes on.
pub open spec fn with_pieces(f: Filling, pieces: Seq<Seq<char>>, max_tokens: nat) -> Filling
    decreases pieces.len(),
{
    if pieces.len() == 0 {
        f
    } else {
        with_piece(
            with_pieces(f, pieces.drop_last(), max_tokens),
            pieces.last(),
            true,
            max_tokens,
        )
    }
}

/// The filling with one more sentence.
pub open spec fn with_sentence(f: Filling, sentence: Seq<char>, max_tokens: nat) -> Filling {
    let pieces = pieces_of(sentence, max_tokens);
    with_piece(
        with_pieces(f, pieces.drop_last(), max_tokens),
        pieces.last(),
        false,
        max_tokens,
    )
}

/// The filling with more sentences.
pub open spec fn with_sentences(
    f: Filling,
    sentences: Seq<Seq<char>>,
    max_tokens: nat,
) -> Filling
    decreases sentences.len(),
{
    if sentences.len() == 0 {
        f
    } else {
        with_sentence(
            with_sentences(f, sentences.drop_last(), max_tokens),
            sentences.last(),
            max_tokens,
        )
    }
}

/// The filling with the current paragraph ended; a chunk over the budget is
/// finished at once.
pub open spec fn with_paragraph_end(f: Filling, max_tokens: nat) -> Filling {
    let ended = Filling { current: f.current.push('\n'), at_paragraph: true, ..f };
    if ended.tokens > max_tokens {
        Filling { at_paragraph: false, ..flushed(ended, "sentence_cut"@) }
    } else {
        ended
    }
}

/// The filling with more paragraphs.
pub open spec fn with_paragraphs(
    f: Filling,
    paragraphs: Seq<Seq<char>>,
    max_tokens: nat,
) -> Filling
    decreases paragraphs.len(),
{
    if paragraphs.len() == 0 {
        f
    } else {
        with_paragraph_end(
            with_sentences(
                with_paragraphs(f, paragraphs.drop_last(), max_tokens),
                sentences_of(paragraphs.last()),
                max_tokens,
            ),
            max_tokens,
        )
    }
}

/// The filling that chunking starts from.
pub open spec fn nothing_filled() -> Filling {
    Filling {
        chunks: Seq::empty(),
        current: Seq::empty(),
        tokens: 0,
        at_paragraph: false,
        mid_sentence: false,
    }
}

/// The chunks of a text.
pub open spec fn chunks_of(text: Seq<char>, max_tokens: nat) -> Seq<ChunkRow> {
    let f = with_paragraphs(nothing_filled(), paragraphs_of(text), max_tokens);
    if blank(f.current) {
        f.chunks
    } else {
        flushed(f, "paragraph_end"@).chunks
    }
}

/// The identifiers of chunks are random ones.
pub open spec fn random_ids(chunks: Seq<Chunk>) -> bool {
    forall|i: int| 0 <= i < chunks.len() ==> is_version_4((#[trigger] chunks[i]).id.value)
}

/// The chunk that holds `text`, under a new identifier.
fn finish(text: &str, cut_type: &str, index: usize) -> (r: Chunk)
    ensures
        r@ == chunk_of(text@, cut_type@, index as nat),
        is_version_4(r.id.value),
{
    Chunk {
        id: Uuid::new_v4(),
        text: trim(text),
        chunk_size: estimate_tokens(text),
        chunk_index: index,
        cut_type: owned(cut_type),
    }
}

/// The chunks that are finished and the one being filled.
struct Filler {
    chunks: Vec<Chunk>,
    current: String,
    tokens: usize,
    at_paragraph: bool,
    mid_sentence: bool,
}

impl Filler {
    spec fn view(&self) -> Filling {
        Filling {
            chunks: chunk_views(self.chunks@),
            current: self.current@,
            tokens: self.tokens as nat,
            at_paragraph: self.at_paragraph,
            mid_sentence: self.mid_sentence,
        }
    }

    /// Finishes the current chunk.
    fn flush(&mut self, cut_type: &str)
        requires
            random_ids(old(self).chunks@),
        ensures
            final(self)@ == flushed(old(self)@, cut_type@),
            random_ids(final(self).chunks@),
    {
        let ghost done = self.chunks@;
        let chunk = finish(self.current.as_str(), cut_type, self.chunks.len());
        let ghost added = chunk;
        self.chunks.push(chunk);
        self.current = String::new();
        self.tokens = 0;
        proof {
            assert(chunk_views(self.chunks@) =~= chunk_views(done).push(added@));
            assert(self.current@ =~= Seq::empty());
            assert forall|i: int| 0 <= i < self.chunks@.len() implies is_version_4(
                (#[trigger] self.chunks@[i]).id.value,
            ) by {
                if i < done.len() {
                    assert(self.chunks@[i] == done[i]);
                }
            }
        }
    }

    /// Adds a piece of a sentence.
    fn add_piece(&mut self, piece: &str, goes_on: bool, max_tokens: usize)
        requires
            random_ids(old(self).chunks@),
        ensures
            final(self)@ == with_piece(old(self)@, piece@, goes_on, max_tokens as nat),
            random_ids(final(self).chunks@),
    {
        let tokens: usize = estimate_tokens(piece);
        let full = tokens > max_tokens || self.tokens > max_tokens - tokens || estimate_tokens(
            trim(concat2(self.current.as_str(), piece).as_str()).as_str(),
        ) > max_tokens;
        assert(full == crowded(self@, piece@, max_tokens as nat));
        if full {
            if is_blank(self.current.as_str()) {
                self.current = String::new();
                self.tokens = 0;
                assert(self.current@ =~= Seq::empty());
            } else if self.at_paragraph {
                self.flush("paragraph_end");
            } else if self.mid_sentence {
                self.flush("sentence_cut");
            } else {
                self.flush("sentence_end");
            }
        }
        assert(self@ == with_room(old(self)@, piece@, max_tokens as nat));
        self.current.append(piece);
        self.tokens = self.tokens + tokens;
        self.at_paragraph = false;
        self.mid_sentence = goes_on;
    }

    /// Adds a sentence.
    fn add_sentence(&mut self, sentence: &str, max_tokens: usize)
        requires
            random_ids(old(self).chunks@),
        ensures
            final(self)@ == with_sentence(old(self)@, sentence@, max_tokens as nat),
            random_ids(final(self).chunks@),
    {
        let parts = pieces(sentence, max_tokens);
        let ghost all = views(parts@);
        let ghost before = self@;
        let ghost max = max_tokens as nat;
        let n: usize = parts.len();
        let mut i: usize = 0;
        assert(all.take(0) =~= Seq::empty());
        while i < n - 1
            invariant
                0 < n,
                i < n,
                n == parts@.len(),
                all == views(parts@),
                max == max_tokens as nat,
                random_ids(self.chunks@),
                self@ == with_pieces(before, all.take(i as int), max),
            decreases n - i,
        {
            assert(all.take(i + 1).drop_last() =~= all.take(i as int));
            self.add_piece(parts[i].as_str(), true, max_tokens);
            i += 1;
        }
        assert(all.take(n - 1) =~= all.drop_last());
        self.add_piece(parts[n - 1].as_str(), false, max_tokens);
    }

    /// Ends the current paragraph.
    fn end_paragraph(&mut self, max_tokens: usize)
        requires
            random_ids(old(self).chunks@),
        ensures
            final(self)@ == with_paragraph_end(old(self)@, max_tokens as nat),
            random_ids(final(self).chunks@),
    {
        self.current.push('\n');
        self.at_paragraph = true;
        if self.tokens > max_tokens {
            self.flush("sentence_cut");
            self.at_paragraph = false;
        }
    }
}

/// A sentence in pieces within the budget.
fn pieces(sentence: &str, max_tokens: usize) -> (r: Vec<String>)
    ensures
        views(r@) == pieces_of(sentence@, max_tokens as nat),
        r@.len() > 0,
{
    let mut out: Vec<String> = Vec::new();
    if max_tokens == 0 || estimate_tokens(sentence) <= max_tokens {
        out.push(owned(sentence));
        assert(views(out@) =~= seq![sentence@]);
        return out;
    }
    let cs = chars_of(sentence);
    let ghost max = max_tokens as nat;
    let n: usize = cs.len();
    let mut open = String::new();
    let mut wide: usize = 0;
    let mut narrow: usize = 0;
    let mut i: usize = 0;
    assert(views(out@) =~= Seq::empty());
    assert(open@ =~= Seq::empty());
    while i < n
        invariant
            i <= n,
            n == cs@.len(),
            max == max_tokens as nat,
            wide + narrow <= i,
            wide == cjk_count(open@),
            wide + narrow == open@.len(),
            (views(out@), open@) == cut_pieces(cs@.take(i as int), max),
        decreases n - i,
    {
        assert(cs@.take(i + 1).drop_last() =~= cs@.take(i as int));
        let ghost done = views(out@);
        let ghost before = open@;
        let c = cs[i];
        assert(open@.push(c).drop_last() =~= open@);
        if is_cjk(c) {
            wide += 1;
        } else {
            narrow += 1;
        }
        let quarters: usize = narrow / 4 + (if narrow % 4 == 0 {
            0
        } else {
            1
        });
        assert(wide + quarters == tokens_of(before.push(c)));
        if wide + quarters > max_tokens && wide + narrow > 1 {
            out.push(open);
            assert(views(out@) =~= done.push(before));
            open = String::new();
            open.push(c);
            assert(open@ =~= seq![c]);
            assert(seq![c].drop_last() =~= Seq::<char>::empty());
            assert(cjk_count(seq![c].drop_last()) == 0);
            wide = if is_cjk(c) {
                1
            } else {
                0
            };
            narrow = 1 - wide;
        } else {
            open.push(c);
        }
        i += 1;
    }
    assert(cs@.take(n as int) =~= sentence@);
    let ghost done = views(out@);
    let ghost last = open@;
    out.push(open);
    assert(views(out@) =~= done.push(last));
    out
}

/// The paragraphs of a text.
fn paragraphs(text: &str) -> (r: Vec<String>)
    ensures
        views(r@) == paragraphs_of(text@),
{
    proof {
        reveal_strlit("\n\n");
    }
    let pieces = split_str(text, "\n\n");
    let ghost all = views(pieces@);
    let mut out: Vec<String> = Vec::new();
    let mut i: usize = 0;
    proof {
        filter_ends(all, not_blank());
        assert(views(out@) =~= Seq::<Seq<char>>::empty());
    }
    while i < pieces.len()
        invariant
            i <= pieces@.len(),
            all == views(pieces@),
            views(out@) == all.take(i as int).filter(not_blank()),
        decreases pieces@.len() - i,
    {
        let ghost before = views(out@);
        proof {
            filter_step(all, i as int, not_blank());
        }
        if !is_blank(pieces[i].as_str()) {
            out.push(owned(pieces[i].as_str()));
            assert(views(out@) =~= before.push(all[i as int]));
        }
        i += 1;
    }
    proof {
        filter_ends(all, not_blank());
    }
    out
}

/// Cuts `text` into chunks of at most `max_tokens` estimated tokens: a chunk takes
/// the next sentence as long as it stays within the budget, and a sentence over
/// the budget is cut.
pub fn chunk_text(text: &str, max_tokens: usize) -> (r: Vec<Chunk>)
    ensures
        chunk_views(r@) == chunks_of(text@, max_tokens as nat),
        max_tokens >= 1 ==> forall|i: int|
            0 <= i < r@.len() ==> tokens_of((#[trigger] r@[i]).text@) <= max_tokens,
        random_ids(r@),
{
    let mut filler = Filler {
        chunks: Vec::new(),
        current: String::new(),
        tokens: 0,
        at_paragraph: false,
        mid_sentence: false,
    };
    let parts = paragraphs(text);
    let ghost all = views(parts@);
    let ghost max = max_tokens as nat;
    let ghost start = nothing_filled();
    proof {
        assert(chunk_views(filler.chunks@) =~= Seq::empty());
        assert(filler.current@ =~= Seq::empty());
        assert(all.take(0) =~= Seq::empty());
    }
    let mut i: usize = 0;
    while i < parts.len()
        invariant
            i <= parts@.len(),
            all == views(parts@),
            max == max_tokens as nat,
            start == nothing_filled(),
            random_ids(filler.chunks@),
            filler@ == with_paragraphs(start, all.take(i as int), max),
        decreases parts@.len() - i,
    {
        let ghost before = filler@;
        let these = sentences(parts[i].as_str());
        let ghost texts = views(these@);
        let mut k: usize = 0;
        assert(texts.take(0) =~= Seq::empty());
        while k < these.len()
            invariant
                k <= these@.len(),
                texts == views(these@),
                max == max_tokens as nat,
                random_ids(filler.chunks@),
                filler@ == with_sentences(before, texts.take(k as int), max),
            decreases these@.len() - k,
        {
            assert(texts.take(k + 1).drop_last() =~= texts.take(k as int));
            filler.add_sentence(these[k].as_str(), max_tokens);
            k += 1;
        }
        assert(texts.take(texts.len() as int) =~= texts);
        assert(all.take(i + 1).drop_last() =~= all.take(i as int));
        filler.end_paragraph(max_tokens);
        i += 1;
    }
    assert(all.take(all.len() as int) =~= all);
    if !is_blank(filler.current.as_str()) {
        filler.flush("paragraph_end");
    }
    proof {
        if max_tokens >= 1 {
            chunks_respect_the_budget(text@, max);
            assert forall|i: int| 0 <= i < filler.chunks@.len() implies tokens_of(
                (#[trigger] filler.chunks@[i]).text@,
            ) <= max_tokens by {
                assert(chunk_views(filler.chunks@)[i] == filler.chunks@[i]@);
            }
        }
    }
    filler.chunks
}

// ---------------------------------------------------------------------------
// Laws
// ---------------------------------------------------------------------------

/// Accepts every character but white space.
pub open spec fn visible() -> spec_fn(char) -> bool {
    |c: char| !white(c)
}

/// The characters of `s` that are not white space, in order.
pub open spec fn ink(s: Seq<char>) -> Seq<char> {
    s.filter(visible())
}

/// The visible characters of all chunks, in order.
pub open spec fn chunk_ink(chunks: Seq<ChunkRow>) -> Seq<char>
    decreases chunks.len(),
{
    if chunks.len() == 0 {
        Seq::empty()
    } else {
        chunk_ink(chunks.drop_last()) + ink(chunks.last().text)
    }
}

spec fn ink_of_all(parts: Seq<Seq<char>>) -> Seq<char>
    decreases parts.len(),
{
    if parts.len() == 0 {
        Seq::empty()
    } else {
        ink_of_all(parts.drop_last()) + ink(parts.last())
    }
}

spec fn filling_ink(f: Filling) -> Seq<char> {
    chunk_ink(f.chunks) + ink(f.current)
}

proof fn ink_adds(a: Seq<char>, b: Seq<char>)
    ensures
        ink(a + b) == ink(a) + ink(b),
{
    Seq::<char>::filter_distributes_over_add(a, b, visible());
}

proof fn ink_of_blank(s: Seq<char>)
    requires
        blank(s),
    ensures
        ink(s) == Seq::<char>::empty(),
    decreases s.len(),
{
    reveal(Seq::filter);
    if s.len() > 0 {
        assert(white(s[s.len() - 1]));
        assert forall|i: int| 0 <= i < s.drop_last().len() implies white(
            #[trigger] s.drop_last()[i],
        ) by {
            assert(white(s[i]));
        }
        ink_of_blank(s.drop_last());
    }
}

proof fn ink_of_empty()
    ensures
        ink(Seq::<char>::empty()) == Seq::<char>::empty(),
{
    reveal(Seq::filter);
}

proof fn ink_is_empty_iff_blank(s: Seq<char>)
    ensures
        ink(s).len() == 0 <==> blank(s),
    decreases s.len(),
{
    reveal(Seq::filter);
    if s.len() > 0 {
        let head = s.drop_last();
        ink_is_empty_iff_blank(head);
        assert(s.last() == s[s.len() - 1]);
        if blank(s) {
            assert forall|i: int| 0 <= i < head.len() implies white(#[trigger] head[i]) by {
                assert(white(s[i]));
            }
            assert(white(s[s.len() - 1]));
        }
        if blank(head) && white(s.last()) {
            assert forall|i: int| 0 <= i < s.len() implies white(#[trigger] s[i]) by {
                if i < head.len() {
                    assert(white(head[i]));
                }
            }
        }
    }
}

proof fn ink_of_trimmed_start(s: Seq<char>)
    ensures
        ink(trim_start_of(s)) == ink(s),
    decreases s.len(),
{
    if s.len() > 0 && white(s[0]) {
        ink_of_trimmed_start(s.skip(1));
        let first = seq![s[0]];
        assert(s =~= first + s.skip(1));
        ink_adds(first, s.skip(1));
        assert(blank(first));
        ink_of_blank(first);
        assert(Seq::<char>::empty() + ink(s.skip(1)) =~= ink(s.skip(1)));
    }
}

proof fn ink_of_trimmed_end(s: Seq<char>)
    ensures
        ink(trim_end_of(s)) == ink(s),
    decreases s.len(),
{
    if s.len() > 0 && white(s.last()) {
        ink_of_trimmed_end(s.drop_last());
        let last = seq![s.last()];
        assert(s =~= s.drop_last() + last);
        ink_adds(s.drop_last(), last);
        assert(blank(last));
        ink_of_blank(last);
        assert(ink(s.drop_last()) + Seq::<char>::empty() =~= ink(s.drop_last()));
    }
}

/// Trimming takes away white space alone.
pub proof fn trimming_keeps_ink(s: Seq<char>)
    ensures
        ink(trim_of(s)) == ink(s),
{
    ink_of_trimmed_start(s);
    ink_of_trimmed_end(trim_start_of(s));
}

proof fn flushing_keeps_ink(f: Filling, cut_type: Seq<char>)
    ensures
        filling_ink(flushed(f, cut_type)) == filling_ink(f),
{
    let after = flushed(f, cut_type);
    trimming_keeps_ink(f.current);
    ink_of_empty();
    assert(after.chunks.drop_last() =~= f.chunks);
    assert(chunk_ink(after.chunks) + Seq::<char>::empty() =~= chunk_ink(after.chunks));
}

proof fn piece_adds_ink(f: Filling, piece: Seq<char>, goes_on: bool, max_tokens: nat)
    ensures
        filling_ink(with_piece(f, piece, goes_on, max_tokens)) == filling_ink(f) + ink(piece),
{
    let room = with_room(f, piece, max_tokens);
    let empty = Seq::<char>::empty();
    if crowded(f, piece, max_tokens) {
        ink_of_empty();
        if blank(f.current) {
            ink_of_blank(f.current);
        } else {
            flushing_keeps_ink(f, ending_of(f));
        }
    }
    ink_adds(room.current, piece);
    assert(chunk_ink(room.chunks) + (ink(room.current) + ink(piece)) =~= (chunk_ink(room.chunks)
        + ink(room.current)) + ink(piece));
}

proof fn pieces_add_ink(f: Filling, pieces: Seq<Seq<char>>, max_tokens: nat)
    ensures
        filling_ink(with_pieces(f, pieces, max_tokens)) == filling_ink(f) + ink_of_all(pieces),
    decreases pieces.len(),
{
    if pieces.len() == 0 {
        assert(filling_ink(f) + Seq::<char>::empty() =~= filling_ink(f));
    } else {
        let head = pieces.drop_last();
        pieces_add_ink(f, head, max_tokens);
        piece_adds_ink(with_pieces(f, head, max_tokens), pieces.last(), true, max_tokens);
        assert(filling_ink(f) + ink_of_all(head) + ink(pieces.last()) =~= filling_ink(f)
            + ink_of_all(pieces));
    }
}

proof fn cutting_keeps_ink(s: Seq<char>, max_tokens: nat)
    ensures
        ink_of_all(cut_pieces(s, max_tokens).0) + ink(cut_pieces(s, max_tokens).1) == ink(s),
    decreases s.len(),
{
    ink_of_empty();
    if s.len() == 0 {
        assert(s =~= Seq::empty());
        assert(Seq::<char>::empty() + Seq::<char>::empty() =~= Seq::<char>::empty());
    } else {
        let head = s.drop_last();
        let last = seq![s.last()];
        cutting_keeps_ink(head, max_tokens);
        let (done, open) = cut_pieces(head, max_tokens);
        assert(s =~= head + last);
        ink_adds(head, last);
        assert(open.push(s.last()) =~= open + last);
        ink_adds(open, last);
        assert(ink_of_all(done) + (ink(open) + ink(last)) =~= (ink_of_all(done) + ink(open)) + ink(
            last,
        ));
        assert(done.push(open).drop_last() =~= done);
    }
}

proof fn sentence_adds_ink(f: Filling, sentence: Seq<char>, max_tokens: nat)
    ensures
        filling_ink(with_sentence(f, sentence, max_tokens)) == filling_ink(f) + ink(sentence),
{
    let pieces = pieces_of(sentence, max_tokens);
    let head = pieces.drop_last();
    pieces_add_ink(f, head, max_tokens);
    piece_adds_ink(with_pieces(f, head, max_tokens), pieces.last(), false, max_tokens);
    cutting_keeps_ink(sentence, max_tokens);
    let (done, open) = cut_pieces(sentence, max_tokens);
    if tokens_of(sentence) <= max_tokens || max_tokens == 0 {
        assert(head =~= Seq::<Seq<char>>::empty());
        assert(ink_of_all(head) =~= Seq::<char>::empty());
        assert(filling_ink(f) + Seq::<char>::empty() =~= filling_ink(f));
    } else {
        assert(head =~= done);
        assert(filling_ink(f) + ink_of_all(head) + ink(pieces.last()) =~= filling_ink(f) + (
        ink_of_all(done) + ink(open)));
    }
}

proof fn sentences_add_ink(f: Filling, sentences: Seq<Seq<char>>, max_tokens: nat)
    ensures
        filling_ink(with_sentences(f, sentences, max_tokens)) == filling_ink(f) + ink_of_all(
            sentences,
        ),
    decreases sentences.len(),
{
    if sentences.len() == 0 {
        assert(filling_ink(f) + Seq::<char>::empty() =~= filling_ink(f));
    } else {
        let head = sentences.drop_last();
        sentences_add_ink(f, head, max_tokens);
        sentence_adds_ink(with_sentences(f, head, max_tokens), sentences.last(), max_tokens);
        assert(filling_ink(f) + ink_of_all(head) + ink(sentences.last()) =~= filling_ink(f)
            + ink_of_all(sentences));
    }
}

proof fn paragraph_end_keeps_ink(f: Filling, max_tokens: nat)
    ensures
        filling_ink(with_paragraph_end(f, max_tokens)) == filling_ink(f),
{
    let ended = Filling { current: f.current.push('\n'), at_paragraph: true, ..f };
    let line = seq!['\n'];
    assert(f.current.push('\n') =~= f.current + line);
    ink_adds(f.current, line);
    assert(blank(line));
    ink_of_blank(line);
    assert(ink(f.current) + Seq::<char>::empty() =~= ink(f.current));
    flushing_keeps_ink(ended, "sentence_cut"@);
}

proof fn sentences_keep_ink(s: Seq<char>)
    ensures
        ink_of_all(cut_sentences(s).0) + ink(cut_sentences(s).1) == ink(s),
        ink_of_all(sentences_of(s)) == ink(s),
    decreases s.len(),
{
    ink_of_empty();
    if s.len() == 0 {
        assert(s =~= Seq::empty());
        assert(Seq::<char>::empty() + Seq::<char>::empty() =~= Seq::<char>::empty());
    } else {
        let head = s.drop_last();
        let last = seq![s.last()];
        sentences_keep_ink(head);
        let (done, open) = cut_sentences(head);
        let current = open.push(s.last());
        assert(s =~= head + last);
        ink_adds(head, last);
        assert(current =~= open + last);
        ink_adds(open, last);
        assert(ink_of_all(done) + (ink(open) + ink(last)) =~= (ink_of_all(done) + ink(open)) + ink(
            last,
        ));
        assert(done.push(current).drop_last() =~= done);
        assert(ink_of_all(done.push(current)) + Seq::<char>::empty() =~= ink_of_all(
            done.push(current),
        ));
    }
    let (done, open) = cut_sentences(s);
    if blank(open) {
        ink_of_blank(open);
        assert(ink_of_all(done) + Seq::<char>::empty() =~= ink_of_all(done));
    } else {
        assert(done.push(open).drop_last() =~= done);
    }
}

proof fn paragraphs_add_ink(f: Filling, paragraphs: Seq<Seq<char>>, max_tokens: nat)
    ensures
        filling_ink(with_paragraphs(f, paragraphs, max_tokens)) == filling_ink(f) + ink_of_all(
            paragraphs,
        ),
    decreases paragraphs.len(),
{
    if paragraphs.len() == 0 {
        assert(filling_ink(f) + Seq::<char>::empty() =~= filling_ink(f));
    } else {
        let head = paragraphs.drop_last();
        let before = with_paragraphs(f, head, max_tokens);
        let these = sentences_of(paragraphs.last());
        paragraphs_add_ink(f, head, max_tokens);
        sentences_add_ink(before, these, max_tokens);
        sentences_keep_ink(paragraphs.last());
        paragraph_end_keeps_ink(with_sentences(before, these, max_tokens), max_tokens);
        assert(filling_ink(f) + ink_of_all(head) + ink(paragraphs.last()) =~= filling_ink(f)
            + ink_of_all(paragraphs));
    }
}

proof fn ink_prepends(first: Seq<char>, parts: Seq<Seq<char>>)
    ensures
        ink_of_all(seq![first] + parts) == ink(first) + ink_of_all(parts),
    decreases parts.len(),
{
    let empty = Seq::<char>::empty();
    if parts.len() == 0 {
        assert(seq![first] + parts =~= seq![first]);
        assert(seq![first].drop_last() =~= Seq::<Seq<char>>::empty());
        assert(ink_of_all(seq![first].drop_last()) =~= empty);
        assert(empty + ink(first) =~= ink(first) + empty);
    } else {
        assert((seq![first] + parts).drop_last() =~= seq![first] + parts.drop_last());
        ink_prepends(first, parts.drop_last());
        assert(ink(first) + ink_of_all(parts.drop_last()) + ink(parts.last()) =~= ink(first)
            + ink_of_all(parts));
    }
}

proof fn pieces_keep_ink(s: Seq<char>)
    ensures
        ink_of_all(split_str_of(s, "\n\n"@)) == ink(s),
    decreases s.len(),
{
    let pat = "\n\n"@;
    reveal_strlit("\n\n");
    crate::pattern::find_from_is_first(s, pat, 0);
    match crate::pattern::find_of(s, pat) {
        Some(i) if pat.len() > 0 && 0 <= i && i + pat.len() <= s.len() => {
            let rest = s.skip(i + pat.len());
            pieces_keep_ink(rest);
            ink_prepends(s.take(i), split_str_of(rest, pat));
            assert(s.subrange(i, i + pat.len()) =~= pat);
            assert(s =~= s.take(i) + pat + rest);
            ink_adds(s.take(i) + pat, rest);
            ink_adds(s.take(i), pat);
            assert(blank(pat));
            ink_of_blank(pat);
            assert(ink(s.take(i)) + Seq::<char>::empty() =~= ink(s.take(i)));
        },
        _ => {
            assert(seq![s].drop_last() =~= Seq::<Seq<char>>::empty());
            assert(ink_of_all(seq![s].drop_last()) =~= Seq::<char>::empty());
            assert(Seq::<char>::empty() + ink(s) =~= ink(s));
        },
    }
}

proof fn dropping_blanks_keeps_ink(parts: Seq<Seq<char>>)
    ensures
        ink_of_all(parts.filter(not_blank())) == ink_of_all(parts),
    decreases parts.len(),
{
    reveal(Seq::filter);
    if parts.len() > 0 {
        let head = parts.drop_last();
        dropping_blanks_keeps_ink(head);
        let kept = head.filter(not_blank());
        assert(kept.push(parts.last()).drop_last() =~= kept);
        if blank(parts.last()) {
            ink_of_blank(parts.last());
            assert(ink_of_all(head) + Seq::<char>::empty() =~= ink_of_all(head));
        }
    }
}

/// Chunking loses no character but white space and keeps the order of the rest.
pub proof fn chunking_loses_nothing(text: Seq<char>, max_tokens: nat)
    ensures
        chunk_ink(chunks_of(text, max_tokens)) == ink(text),
{
    let empty = Seq::<char>::empty();
    let start = nothing_filled();
    let paragraphs = paragraphs_of(text);
    let f = with_paragraphs(start, paragraphs, max_tokens);
    paragraphs_add_ink(start, paragraphs, max_tokens);
    ink_of_empty();
    assert(chunk_ink(start.chunks) =~= empty);
    assert(filling_ink(start) =~= empty);
    assert(empty + ink_of_all(paragraphs) =~= ink_of_all(paragraphs));
    pieces_keep_ink(text);
    dropping_blanks_keeps_ink(split_str_of(text, "\n\n"@));
    if blank(f.current) {
        ink_of_blank(f.current);
        assert(chunk_ink(f.chunks) + empty =~= chunk_ink(f.chunks));
    } else {
        flushing_keeps_ink(f, "paragraph_end"@);
        let after = flushed(f, "paragraph_end"@);
        assert(chunk_ink(after.chunks) + empty =~= chunk_ink(after.chunks));
    }
}

/// The chunks are numbered from zero on, and none is white space.
pub open spec fn well_made(chunks: Seq<ChunkRow>) -> bool {
    forall|i: int|
        0 <= i < chunks.len() ==> (#[trigger] chunks[i]).chunk_index == i && !blank(chunks[i].text)
}

/// The text of every chunk is estimated at no more than `bound` tokens.
pub open spec fn within(chunks: Seq<ChunkRow>, bound: nat) -> bool {
    forall|i: int| 0 <= i < chunks.len() ==> tokens_of((#[trigger] chunks[i]).text) <= bound
}

/// A piece that is within the budget or at least no white space.
spec fn fair(piece: Seq<char>, max_tokens: nat) -> bool {
    tokens_of(piece) <= max_tokens || !blank(piece)
}

spec fn sound(f: Filling, max_tokens: nat) -> bool {
    &&& well_made(f.chunks)
    &&& (f.tokens > max_tokens ==> !blank(f.current))
}

spec fn bounded(f: Filling, max_tokens: nat) -> bool {
    &&& within(f.chunks, max_tokens)
    &&& f.tokens <= max_tokens
    &&& tokens_of(trim_of(f.current)) <= max_tokens
}

proof fn flushing_is_sound(f: Filling, cut_type: Seq<char>, max_tokens: nat)
    requires
        well_made(f.chunks),
        !blank(f.current),
    ensures
        sound(flushed(f, cut_type), max_tokens),
{
    let after = flushed(f, cut_type);
    trimming_keeps_ink(f.current);
    ink_is_empty_iff_blank(f.current);
    ink_is_empty_iff_blank(trim_of(f.current));
    assert forall|i: int| 0 <= i < after.chunks.len() implies (
    #[trigger] after.chunks[i]).chunk_index == i && !blank(after.chunks[i].text) by {
        if i < f.chunks.len() {
            assert(after.chunks[i] == f.chunks[i]);
        }
    }
}

proof fn blank_of_joined(a: Seq<char>, b: Seq<char>)
    ensures
        blank(a + b) <==> blank(a) && blank(b),
{
    if blank(a + b) {
        assert forall|i: int| 0 <= i < a.len() implies white(#[trigger] a[i]) by {
            assert(white((a + b)[i]));
        }
        assert forall|i: int| 0 <= i < b.len() implies white(#[trigger] b[i]) by {
            assert(white((a + b)[a.len() + i]));
        }
    }
}

proof fn piece_is_sound(f: Filling, piece: Seq<char>, goes_on: bool, max_tokens: nat)
    requires
        sound(f, max_tokens),
        fair(piece, max_tokens),
    ensures
        sound(with_piece(f, piece, goes_on, max_tokens), max_tokens),
{
    if crowded(f, piece, max_tokens) {
        if !blank(f.current) {
            flushing_is_sound(f, ending_of(f), max_tokens);
        }
        assert(Seq::<char>::empty() + piece =~= piece);
    }
}

proof fn pieces_are_sound(f: Filling, pieces: Seq<Seq<char>>, max_tokens: nat)
    requires
        sound(f, max_tokens),
        forall|k: int| 0 <= k < pieces.len() ==> fair(#[trigger] pieces[k], max_tokens),
    ensures
        sound(with_pieces(f, pieces, max_tokens), max_tokens),
    decreases pieces.len(),
{
    if pieces.len() > 0 {
        let head = pieces.drop_last();
        assert forall|k: int| 0 <= k < head.len() implies fair(
            #[trigger] head[k],
            max_tokens,
        ) by {
            assert(head[k] == pieces[k]);
        }
        pieces_are_sound(f, head, max_tokens);
        assert(fair(pieces[pieces.len() - 1], max_tokens));
        piece_is_sound(with_pieces(f, head, max_tokens), pieces.last(), true, max_tokens);
    }
}

proof fn cut_pieces_fit(s: Seq<char>, max_tokens: nat)
    requires
        max_tokens >= 1,
    ensures
        forall|k: int|
            0 <= k < cut_pieces(s, max_tokens).0.len() ==> tokens_of(
                #[trigger] cut_pieces(s, max_tokens).0[k],
            ) <= max_tokens,
        tokens_of(cut_pieces(s, max_tokens).1) <= max_tokens,
    decreases s.len(),
{
    tokens_bounded(Seq::empty());
    if s.len() > 0 {
        cut_pieces_fit(s.drop_last(), max_tokens);
        let (done, open) = cut_pieces(s.drop_last(), max_tokens);
        let after = cut_pieces(s, max_tokens).0;
        tokens_bounded(seq![s.last()]);
        if open.len() == 0 {
            assert(open.push(s.last()) =~= seq![s.last()]);
        }
        assert forall|k: int| 0 <= k < after.len() implies tokens_of(#[trigger] after[k])
            <= max_tokens by {
            if k < done.len() {
                assert(after[k] == done[k]);
            }
        }
    }
}

/// The pieces of a sentence are within the budget, unless that is nothing.
proof fn pieces_fit(sentence: Seq<char>, max_tokens: nat)
    ensures
        max_tokens >= 1 ==> forall|k: int|
            0 <= k < pieces_of(sentence, max_tokens).len() ==> tokens_of(
                #[trigger] pieces_of(sentence, max_tokens)[k],
            ) <= max_tokens,
        !blank(sentence) ==> forall|k: int|
            0 <= k < pieces_of(sentence, max_tokens).len() ==> fair(
                #[trigger] pieces_of(sentence, max_tokens)[k],
                max_tokens,
            ),
{
    let pieces = pieces_of(sentence, max_tokens);
    if max_tokens >= 1 {
        cut_pieces_fit(sentence, max_tokens);
        let (done, open) = cut_pieces(sentence, max_tokens);
        assert forall|k: int| 0 <= k < pieces.len() implies tokens_of(#[trigger] pieces[k])
            <= max_tokens by {
            if k < done.len() && tokens_of(sentence) > max_tokens {
                assert(pieces[k] == done[k]);
            }
        }
    }
}

proof fn sentence_is_sound(f: Filling, sentence: Seq<char>, max_tokens: nat)
    requires
        sound(f, max_tokens),
        !blank(sentence),
    ensures
        sound(with_sentence(f, sentence, max_tokens), max_tokens),
{
    let pieces = pieces_of(sentence, max_tokens);
    let head = pieces.drop_last();
    pieces_fit(sentence, max_tokens);
    assert forall|k: int| 0 <= k < head.len() implies fair(#[trigger] head[k], max_tokens) by {
        assert(head[k] == pieces[k]);
    }
    assert(fair(pieces[pieces.len() - 1], max_tokens));
    pieces_are_sound(f, head, max_tokens);
    piece_is_sound(with_pieces(f, head, max_tokens), pieces.last(), false, max_tokens);
}

proof fn sentences_are_visible(s: Seq<char>)
    ensures
        forall|k: int|
            0 <= k < cut_sentences(s).0.len() ==> !blank(#[trigger] cut_sentences(s).0[k]),
        forall|k: int| 0 <= k < sentences_of(s).len() ==> !blank(#[trigger] sentences_of(s)[k]),
    decreases s.len(),
{
    if s.len() > 0 {
        sentences_are_visible(s.drop_last());
        let (before, open) = cut_sentences(s.drop_last());
        let after = cut_sentences(s).0;
        assert forall|k: int| 0 <= k < after.len() implies !blank(#[trigger] after[k]) by {
            if k < before.len() {
                assert(after[k] == before[k]);
            }
        }
    }
    let (done, open) = cut_sentences(s);
    let all = sentences_of(s);
    assert forall|k: int| 0 <= k < all.len() implies !blank(#[trigger] all[k]) by {
        if k < done.len() {
            assert(all[k] == done[k]);
        }
    }
}

proof fn sentences_are_sound(f: Filling, sentences: Seq<Seq<char>>, max_tokens: nat)
    requires
        sound(f, max_tokens),
        forall|k: int| 0 <= k < sentences.len() ==> !blank(#[trigger] sentences[k]),
    ensures
        sound(with_sentences(f, sentences, max_tokens), max_tokens),
    decreases sentences.len(),
{
    if sentences.len() > 0 {
        let head = sentences.drop_last();
        assert forall|k: int| 0 <= k < head.len() implies !blank(#[trigger] head[k]) by {
            assert(head[k] == sentences[k]);
        }
        sentences_are_sound(f, head, max_tokens);
        assert(!blank(sentences[sentences.len() - 1]));
        sentence_is_sound(with_sentences(f, head, max_tokens), sentences.last(), max_tokens);
    }
}

proof fn paragraph_end_is_sound(f: Filling, max_tokens: nat)
    requires
        sound(f, max_tokens),
    ensures
        sound(with_paragraph_end(f, max_tokens), max_tokens),
{
    let ended = Filling { current: f.current.push('\n'), at_paragraph: true, ..f };
    let line = seq!['\n'];
    assert(ended.current =~= f.current + line);
    blank_of_joined(f.current, line);
    assert(blank(line));
    if ended.tokens > max_tokens {
        flushing_is_sound(ended, "sentence_cut"@, max_tokens);
    }
}

proof fn paragraphs_are_sound(f: Filling, paragraphs: Seq<Seq<char>>, max_tokens: nat)
    requires
        sound(f, max_tokens),
    ensures
        sound(with_paragraphs(f, paragraphs, max_tokens), max_tokens),
    decreases paragraphs.len(),
{
    if paragraphs.len() > 0 {
        let head = paragraphs.drop_last();
        let before = with_paragraphs(f, head, max_tokens);
        let these = sentences_of(paragraphs.last());
        paragraphs_are_sound(f, head, max_tokens);
        sentences_are_visible(paragraphs.last());
        sentences_are_sound(before, these, max_tokens);
        paragraph_end_is_sound(with_sentences(before, these, max_tokens), max_tokens);
    }
}

/// Chunks are numbered from zero on, and none is white space.
pub proof fn chunks_are_well_made(text: Seq<char>, max_tokens: nat)
    ensures
        well_made(chunks_of(text, max_tokens)),
{
    let f = with_paragraphs(nothing_filled(), paragraphs_of(text), max_tokens);
    paragraphs_are_sound(nothing_filled(), paragraphs_of(text), max_tokens);
    if !blank(f.current) {
        flushing_is_sound(f, "paragraph_end"@, max_tokens);
    }
}

/// A text gives no chunks exactly where it is white space.
pub proof fn no_chunks_iff_blank(text: Seq<char>, max_tokens: nat)
    ensures
        chunks_of(text, max_tokens).len() == 0 <==> blank(text),
{
    let chunks = chunks_of(text, max_tokens);
    chunking_loses_nothing(text, max_tokens);
    chunks_are_well_made(text, max_tokens);
    ink_is_empty_iff_blank(text);
    if chunks.len() > 0 {
        let last = chunks[chunks.len() - 1];
        assert(last == chunks.last());
        assert(!blank(last.text));
        ink_is_empty_iff_blank(last.text);
        assert(chunk_ink(chunks).len() >= ink(last.text).len());
    }
}

proof fn trimming_adds_no_tokens(s: Seq<char>)
    ensures
        tokens_of(trim_of(s)) <= tokens_of(s),
{
    trimmed_is_part(s);
    let (a, b) = choose|a: int, b: int|
        #![trigger s.subrange(a, b)]
        0 <= a <= b <= s.len() && trim_of(s) == s.subrange(a, b);
    assert(s =~= s.take(a) + s.skip(a));
    tokens_of_joined(s.take(a), s.skip(a));
    assert(s.skip(a) =~= s.subrange(a, b) + s.skip(b));
    tokens_of_joined(s.subrange(a, b), s.skip(b));
}

proof fn trimming_drops_last_white(s: Seq<char>, c: char)
    requires
        white(c),
    ensures
        trim_of(s.push(c)) == trim_of(s),
    decreases s.len(),
{
    let longer = s.push(c);
    if s.len() == 0 {
        assert(longer.drop_first() =~= s);
        assert(trim_start_of(longer) == trim_start_of(s));
    } else if white(s.first()) {
        assert(longer.drop_first() =~= s.drop_first().push(c));
        trimming_drops_last_white(s.drop_first(), c);
    } else {
        assert(longer.first() == s.first());
        assert(longer.drop_last() =~= s);
    }
}

proof fn piece_stays_bounded(f: Filling, piece: Seq<char>, goes_on: bool, max_tokens: nat)
    requires
        bounded(f, max_tokens),
        tokens_of(piece) <= max_tokens,
    ensures
        bounded(with_piece(f, piece, goes_on, max_tokens), max_tokens),
{
    let after = with_piece(f, piece, goes_on, max_tokens);
    if crowded(f, piece, max_tokens) {
        assert(Seq::<char>::empty() + piece =~= piece);
        trimming_adds_no_tokens(piece);
    }
    assert forall|i: int| 0 <= i < after.chunks.len() implies tokens_of(
        (#[trigger] after.chunks[i]).text,
    ) <= max_tokens by {
        if i < f.chunks.len() {
            assert(after.chunks[i] == f.chunks[i]);
        }
    }
}

proof fn pieces_stay_bounded(f: Filling, pieces: Seq<Seq<char>>, max_tokens: nat)
    requires
        bounded(f, max_tokens),
        forall|k: int| 0 <= k < pieces.len() ==> tokens_of(#[trigger] pieces[k]) <= max_tokens,
    ensures
        bounded(with_pieces(f, pieces, max_tokens), max_tokens),
    decreases pieces.len(),
{
    if pieces.len() > 0 {
        let head = pieces.drop_last();
        assert forall|k: int| 0 <= k < head.len() implies tokens_of(#[trigger] head[k])
            <= max_tokens by {
            assert(head[k] == pieces[k]);
        }
        pieces_stay_bounded(f, head, max_tokens);
        assert(tokens_of(pieces[pieces.len() - 1]) <= max_tokens);
        piece_stays_bounded(with_pieces(f, head, max_tokens), pieces.last(), true, max_tokens);
    }
}

proof fn sentences_stay_bounded(f: Filling, sentences: Seq<Seq<char>>, max_tokens: nat)
    requires
        bounded(f, max_tokens),
        max_tokens >= 1,
    ensures
        bounded(with_sentences(f, sentences, max_tokens), max_tokens),
    decreases sentences.len(),
{
    if sentences.len() > 0 {
        sentences_stay_bounded(f, sentences.drop_last(), max_tokens);
        let before = with_sentences(f, sentences.drop_last(), max_tokens);
        let pieces = pieces_of(sentences.last(), max_tokens);
        let head = pieces.drop_last();
        pieces_fit(sentences.last(), max_tokens);
        assert forall|k: int| 0 <= k < head.len() implies tokens_of(#[trigger] head[k])
            <= max_tokens by {
            assert(head[k] == pieces[k]);
        }
        assert(tokens_of(pieces[pieces.len() - 1]) <= max_tokens);
        pieces_stay_bounded(before, head, max_tokens);
        piece_stays_bounded(
            with_pieces(before, head, max_tokens),
            pieces.last(),
            false,
            max_tokens,
        );
    }
}

proof fn paragraphs_stay_bounded(paragraphs: Seq<Seq<char>>, max_tokens: nat)
    requires
        max_tokens >= 1,
    ensures
        bounded(with_paragraphs(nothing_filled(), paragraphs, max_tokens), max_tokens),
    decreases paragraphs.len(),
{
    if paragraphs.len() == 0 {
        trimming_adds_no_tokens(Seq::empty());
        tokens_bounded(Seq::empty());
    } else {
        let head = paragraphs.drop_last();
        paragraphs_stay_bounded(head, max_tokens);
        let before = with_paragraphs(nothing_filled(), head, max_tokens);
        let these = sentences_of(paragraphs.last());
        sentences_stay_bounded(before, these, max_tokens);
        trimming_drops_last_white(with_sentences(before, these, max_tokens).current, '\n');
    }
}

/// No chunk is over the budget.
pub proof fn chunks_respect_the_budget(text: Seq<char>, max_tokens: nat)
    requires
        max_tokens >= 1,
    ensures
        within(chunks_of(text, max_tokens), max_tokens),
{
    paragraphs_stay_bounded(paragraphs_of(text), max_tokens);
    let f = with_paragraphs(nothing_filled(), paragraphs_of(text), max_tokens);
    let chunks = chunks_of(text, max_tokens);
    assert forall|i: int| 0 <= i < chunks.len() implies tokens_of((#[trigger] chunks[i]).text)
        <= max_tokens by {
        if i < f.chunks.len() {
            assert(chunks[i] == f.chunks[i]);
        }
    }
}

} // verus!
