//! Inline-image presentation: frame a PNG as escape-sequence messages for a
//! terminal that speaks a graphics-overlay protocol.
//!
//! An image travels as base64 text split into chunks of at most `CHUNK_SIZE`
//! characters. Every chunk is wrapped in an APC message `ESC _G <keys> ;
//! <payload> ESC \`; the first one carries the full control keys (transmit, PNG,
//! direct) and every one carries the more-data flag, 1 on each chunk except
//! the last. Writing the frames to the terminal is the caller's I/O; building
//! them, and the chunking itself, is verified here.

use vstd::prelude::*;
use vstd::string::*;

verus! {

/// Most characters of encoded payload one protocol frame may carry.
pub const CHUNK_SIZE: usize = 4096;

/// What the standard padded base64 alphabet encodes the bytes to.
pub uninterp spec fn base64_of(bytes: Seq<u8>) -> Seq<char>;

/// Relies on base64's `STANDARD` engine `encode`: the text returned depends on
/// the input bytes alone, and padded output takes four characters for every
/// three input bytes, rounded up. The engine only panics when that output
/// length overflows, which the bound on the input rules out.
#[verifier::external_body]
fn encode_base64(bytes: &[u8]) -> (r: String)
    requires
        bytes@.len() <= 0x1000_0000_0000_0000,
    ensures
        r@ == base64_of(bytes@),
        r@.len() == 4 * ((bytes@.len() + 2) / 3),
{
    base64::Engine::encode(&base64::engine::general_purpose::STANDARD, bytes)
}

/// `e` split into successive chunks of at most `CHUNK_SIZE` characters.
pub open spec fn chunks_of(e: Seq<char>) -> Seq<Seq<char>>
    decreases e.len(),
{
    if e.len() == 0 {
        Seq::empty()
    } else if e.len() <= CHUNK_SIZE {
        seq![e]
    } else {
        seq![e.take(CHUNK_SIZE as int)] + chunks_of(e.skip(CHUNK_SIZE as int))
    }
}

/// One protocol message: APC framing around control keys and a payload.
pub open spec fn apc_frame(keys: Seq<char>, payload: Seq<char>) -> Seq<char> {
    "\x1b_G"@ + keys + ";"@ + payload + "\x1b\\"@
}

/// Control keys of the first frame of an image: transmit a PNG directly, with
/// the more-data flag.
pub open spec fn lead_keys(more: bool) -> Seq<char> {
    if more {
        "a=T,f=100,t=d,m=1"@
    } else {
        "a=T,f=100,t=d,m=0"@
    }
}

/// Control keys of every later frame: only the more-data flag.
pub open spec fn cont_keys(more: bool) -> Seq<char> {
    if more {
        "m=1"@
    } else {
        "m=0"@
    }
}

/// Control keys of frame `idx`; `more` is clear only on the last frame.
pub open spec fn frame_keys(idx: int, more: bool) -> Seq<char> {
    if idx == 0 {
        lead_keys(more)
    } else {
        cont_keys(more)
    }
}

/// Frames for the encoded payload `e` when `idx` frames were already framed:
/// one frame per chunk, the more-data flag set on all but the last.
pub open spec fn frames_from(e: Seq<char>, idx: int) -> Seq<Seq<char>>
    decreases e.len(),
{
    if e.len() == 0 {
        Seq::empty()
    } else if e.len() <= CHUNK_SIZE {
        seq![apc_frame(frame_keys(idx, false), e)]
    } else {
        seq![apc_frame(frame_keys(idx, true), e.take(CHUNK_SIZE as int))] + frames_from(
            e.skip(CHUNK_SIZE as int),
            idx + 1,
        )
    }
}

/// All frames presenting the encoded payload `e`, in transmission order.
pub open spec fn frames_for(e: Seq<char>) -> Seq<Seq<char>> {
    frames_from(e, 0)
}

/// The control sequence deleting all visible image placements.
pub open spec fn clear_frame() -> Seq<char> {
    apc_frame("a=d,d=A"@, Seq::empty())
}

/// The message that clears every image placement currently visible. It is the
/// same sequence on every call and carries no payload, so sending it when
/// nothing is displayed asks the terminal for nothing and cannot fail.
pub fn clear_inline() -> (r: String)
    ensures
        r@ == clear_frame(),
{
    let mut s = "\x1b_G".to_owned();
    s.append("a=d,d=A");
    s.append(";");
    s.append("\x1b\\");
    proof {
        assert(s@ =~= clear_frame());
    }
    s
}

fn build_frame(keys: &str, payload: &str) -> (r: String)
    ensures
        r@ == apc_frame(keys@, payload@),
{
    let mut s = "\x1b_G".to_owned();
    s.append(keys);
    s.append(";");
    s.append(payload);
    s.append("\x1b\\");
    proof {
        assert(s@ =~= apc_frame(keys@, payload@));
    }
    s
}

/// How many chunks a payload of `len` characters yields.
pub proof fn lemma_chunk_count(e: Seq<char>)
    ensures
        chunks_of(e).len() == (e.len() + CHUNK_SIZE - 1) / (CHUNK_SIZE as int),
    decreases e.len(),
{
    if e.len() > CHUNK_SIZE {
        lemma_chunk_count(e.skip(CHUNK_SIZE as int));
    }
}

/// Each frame wraps its chunk with the right control keys: frame `i` carries
/// chunk `i`, the keys of position `idx + i`, and a more-data flag that is set
/// exactly when a later chunk follows.
pub proof fn lemma_frames_match_chunks(e: Seq<char>, idx: int)
    ensures
        frames_from(e, idx).len() == chunks_of(e).len(),
        forall|i: int|
            0 <= i < chunks_of(e).len() ==> #[trigger] frames_from(e, idx)[i] == apc_frame(
                frame_keys(idx + i, i + 1 < chunks_of(e).len()),
                chunks_of(e)[i],
            ),
    decreases e.len(),
{
    let c = CHUNK_SIZE as int;
    if e.len() > c {
        let rest = e.skip(c);
        lemma_frames_match_chunks(rest, idx + 1);
        assert forall|i: int| 0 <= i < chunks_of(e).len() implies #[trigger] frames_from(e, idx)[i]
            == apc_frame(frame_keys(idx + i, i + 1 < chunks_of(e).len()), chunks_of(e)[i]) by {
            if i > 0 {
                assert(frames_from(e, idx)[i] == frames_from(rest, idx + 1)[i - 1]);
                assert(chunks_of(e)[i] == chunks_of(rest)[i - 1]);
            }
        }
    }
}

/// Chunking law: a payload of `L` characters travels as `ceil(L / CHUNK_SIZE)`
/// chunks; every chunk but the last fills `CHUNK_SIZE` characters, none holds
/// more; and the chunks concatenated in order reconstruct the payload exactly.
pub proof fn lemma_chunking(e: Seq<char>)
    ensures
        chunks_of(e).len() == (e.len() + CHUNK_SIZE - 1) / (CHUNK_SIZE as int),
        forall|i: int|
            0 <= i < chunks_of(e).len() ==> (#[trigger] chunks_of(e)[i]).len() <= CHUNK_SIZE,
        forall|i: int|
            0 <= i < chunks_of(e).len() - 1 ==> (#[trigger] chunks_of(e)[i]).len() == CHUNK_SIZE,
        chunks_of(e).flatten() == e,
    decreases e.len(),
{
    let c = CHUNK_SIZE as int;
    lemma_chunk_count(e);
    if e.len() == 0 {
        assert(chunks_of(e) =~= Seq::<Seq<char>>::empty());
        assert(chunks_of(e).flatten() =~= e);
    } else if e.len() <= c {
        assert(chunks_of(e) == seq![e]);
        assert(chunks_of(e).first() == e);
        assert(chunks_of(e).drop_first() =~= Seq::<Seq<char>>::empty());
        assert(Seq::<Seq<char>>::empty().flatten() =~= Seq::<char>::empty());
        assert(chunks_of(e).flatten() == e + Seq::<char>::empty());
        assert(e + Seq::<char>::empty() =~= e);
    } else {
        let rest = e.skip(c);
        lemma_chunking(rest);
        let chunks = chunks_of(e);
        assert(chunks == seq![e.take(c)] + chunks_of(rest));
        assert forall|i: int| 0 <= i < chunks.len() implies (#[trigger] chunks[i]).len()
            <= CHUNK_SIZE by {
            if i > 0 {
                assert(chunks[i] == chunks_of(rest)[i - 1]);
            }
        }
        assert forall|i: int| 0 <= i < chunks.len() - 1 implies (#[trigger] chunks[i]).len()
            == CHUNK_SIZE by {
            if i > 0 {
                assert(chunks[i] == chunks_of(rest)[i - 1]);
            }
        }
        assert(chunks.first() == e.take(c));
        assert(chunks.drop_first() =~= chunks_of(rest));
        assert(chunks.flatten() == e.take(c) + chunks_of(rest).flatten());
        assert(e.take(c) + rest =~= e);
    }
}

/// Build the protocol frames for an already-encoded payload.
pub fn apc_frames(encoded: &str) -> (r: Vec<String>)
    ensures
        r.deep_view() == frames_for(encoded@),
{
    let ghost e = encoded@;
    let n = encoded.unicode_len();
    let mut r: Vec<String> = Vec::new();
    let mut start: usize = 0;
    proof {
        assert(e.skip(0) =~= e);
        assert(r.deep_view() =~= Seq::<Seq<char>>::empty());
        assert(Seq::<Seq<char>>::empty() + frames_from(e, 0) =~= frames_from(e, 0));
    }
    while start < n
        invariant
            n == e.len(),
            e == encoded@,
            start <= n,
            frames_for(e) == r.deep_view() + frames_from(e.skip(start as int), r.deep_view().len() as int),
        decreases n - start,
    {
        let ghost prev = r.deep_view();
        let ghost suffix = e.skip(start as int);
        let idx = r.len();
        let end = if n - start >= CHUNK_SIZE {
            start + CHUNK_SIZE
        } else {
            n
        };
        let more = end < n;
        let keys: &'static str = if idx == 0 {
            if more {
                "a=T,f=100,t=d,m=1"
            } else {
                "a=T,f=100,t=d,m=0"
            }
        } else {
            if more {
                "m=1"
            } else {
                "m=0"
            }
        };
        proof {
            assert(keys@ == frame_keys(idx as int, more));
        }
        let payload = encoded.substring_char(start, end);
        let frame = build_frame(keys, payload);
        r.push(frame);
        proof {
            if more {
                assert(suffix.len() > CHUNK_SIZE);
                assert(payload@ =~= suffix.take(CHUNK_SIZE as int));
                assert(frames_from(suffix, idx as int) == seq![apc_frame(
                    frame_keys(idx as int, true),
                    suffix.take(CHUNK_SIZE as int),
                )] + frames_from(suffix.skip(CHUNK_SIZE as int), idx + 1));
                assert(suffix.skip(CHUNK_SIZE as int) =~= e.skip(end as int));
            } else {
                assert(suffix.len() <= CHUNK_SIZE);
                assert(payload@ =~= suffix);
                assert(frames_from(suffix, idx as int) == seq![apc_frame(
                    frame_keys(idx as int, false),
                    suffix,
                )]);
                assert(e.skip(end as int) =~= Seq::<char>::empty());
                assert(frames_from(e.skip(end as int), idx + 1) =~= Seq::<Seq<char>>::empty());
            }
            assert(r.deep_view() =~= prev + seq![apc_frame(frame_keys(idx as int, more), payload@)]);
            assert(frames_for(e) =~= r.deep_view() + frames_from(e.skip(end as int), idx + 1));
        }
        start = end;
    }
    proof {
        assert(e.skip(start as int) =~= Seq::<char>::empty());
        assert(frames_from(e.skip(start as int), r.deep_view().len() as int)
            =~= Seq::<Seq<char>>::empty());
        assert(r.deep_view() =~= frames_for(e));
    }
    r
}

/// Frames presenting one PNG image inline: the bytes are base64-encoded and
/// the encoded text split into protocol frames, the first carrying the full
/// transfer keys and the last carrying a cleared more-data flag.
pub fn show_inline_frames(image: &[u8]) -> (r: Vec<String>)
    requires
        image@.len() <= 0x1000_0000_0000_0000,
    ensures
        r.deep_view() == frames_for(base64_of(image@)),
        base64_of(image@).len() == 4 * ((image@.len() + 2) / 3),
{
    let encoded = encode_base64(image);
    apc_frames(encoded.as_str())
}

} // verus!
