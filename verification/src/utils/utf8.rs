//! Splitting a byte buffer into UTF-8 text and invalid sequences.

use vstd::prelude::*;
use vstd::utf8::*;

verus! {

/// Length of the longest prefix of `b` that is valid UTF-8.
pub open spec fn valid_prefix_len(b: Seq<u8>) -> int
    decreases b.len(),
{
    if b.len() == 0 {
        0
    } else if valid_first_scalar(b) {
        proof {
            lemma_pop_first_scalar_shorter(b);
        }
        length_of_first_scalar(b) + valid_prefix_len(pop_first_scalar(b))
    } else {
        0
    }
}

pub proof fn lemma_pop_first_scalar_shorter(b: Seq<u8>)
    requires
        b.len() > 0,
        valid_first_scalar(b),
    ensures
        1 <= length_of_first_scalar(b) <= b.len(),
        pop_first_scalar(b).len() < b.len(),
        pop_first_scalar(b) == b.subrange(length_of_first_scalar(b), b.len() as int),
{
}

/// `s` is the beginning of the encoding of one character that ends too
/// early: some further bytes would complete a well-formed encoding of it.
pub open spec fn incomplete_scalar(s: Seq<u8>) -> bool {
    &&& s.len() >= 1
    &&& exists|t: Seq<u8>|
        #![trigger valid_first_scalar(s + t)]
        t.len() >= 1 && valid_first_scalar(s + t) && length_of_first_scalar(s + t) == s.len() + t.len()
}

/// What `std::str::from_utf8` reports, through `Utf8Error::error_len`, for invalid
/// input: the length of the invalid sequence at the end of the valid prefix, or
/// `None` where the input ends inside a character.
pub uninterp spec fn utf8_error_len(bytes: Seq<u8>) -> Option<usize>;

/// Decodes `bytes` with `std::str::from_utf8`: the text when they are valid
/// UTF-8, otherwise `Utf8Error::valid_up_to` and `Utf8Error::error_len`.
/// Trusted: validity is vstd's `valid_utf8` and the text is vstd's
/// `decode_utf8`; `valid_up_to` is the length of the longest valid prefix;
/// `error_len` is `None` exactly when the input ends early, inside a character
/// (the bytes after the valid prefix begin a well-formed encoding that the end
/// cuts short); an invalid sequence is one to three bytes long and lies inside
/// the input, and an incomplete one is one to three bytes at its end.  The
/// length of an invalid sequence is left to `utf8_error_len`.
#[verifier::external_body]
fn from_utf8(bytes: &[u8]) -> (r: Result<String, (usize, Option<usize>)>)
    ensures
        r is Ok <==> valid_utf8(bytes@),
        r matches Ok(s) ==> s@ == decode_utf8(bytes@),
        r matches Err((v, e)) ==> {
            &&& v == valid_prefix_len(bytes@)
            &&& e == utf8_error_len(bytes@)
            &&& (e is None <==> incomplete_scalar(bytes@.subrange(v as int, bytes@.len() as int)))
            &&& match e {
                Some(n) => 1 <= n <= 3 && v + n <= bytes@.len(),
                None => 1 <= bytes@.len() - v <= 3,
            }
        },
{
    match std::str::from_utf8(bytes) {
        Ok(s) => Ok(s.to_owned()),
        Err(e) => Err((e.valid_up_to(), e.error_len())),
    }
}

/// A piece of a byte buffer: decoded text, or an invalid byte sequence.
#[derive(Debug)]
pub enum Chunk {
    Text(String),
    Invalid(Vec<u8>),
}

/// A piece of a byte buffer, as a value of the specification.
pub enum ChunkView {
    Text(Seq<char>),
    Invalid(Seq<u8>),
}

impl Chunk {
    pub open spec fn view(&self) -> ChunkView {
        match self {
            Chunk::Text(s) => ChunkView::Text(s@),
            Chunk::Invalid(b) => ChunkView::Invalid(b@),
        }
    }
}

/// Splitting `b` into pieces: each step takes the longest valid prefix as text
/// (possibly empty), then the invalid sequence after it; an incomplete
/// character at the end (see `incomplete_scalar`) is left over.  The pieces and the length of what was
/// consumed.
pub open spec fn chunks_of(b: Seq<u8>) -> (Seq<ChunkView>, int)
    decreases b.len(),
{
    if valid_utf8(b) {
        (seq![ChunkView::Text(decode_utf8(b))], b.len() as int)
    } else {
        let v = valid_prefix_len(b);
        let text = ChunkView::Text(decode_utf8(b.subrange(0, v)));
        if incomplete_scalar(b.subrange(v, b.len() as int)) {
            (seq![text], v)
        } else {
            match utf8_error_len(b) {
                Some(n) => if 1 <= n && v + n <= b.len() && 0 <= v {
                    let (rest, used) = chunks_of(b.subrange(v + n, b.len() as int));
                    (seq![text, ChunkView::Invalid(b.subrange(v, v + n))] + rest, v + n + used)
                } else {
                    (seq![text], v)
                },
                None => (seq![text], v),
            }
        }
    }
}

proof fn lemma_valid_prefix(b: Seq<u8>)
    ensures
        0 <= valid_prefix_len(b) <= b.len(),
        valid_utf8(b.subrange(0, valid_prefix_len(b))),
    decreases b.len(),
{
    if b.len() == 0 {
        assert(b.subrange(0, 0) =~= Seq::<u8>::empty());
    } else if valid_first_scalar(b) {
        lemma_pop_first_scalar_shorter(b);
        let k = length_of_first_scalar(b);
        let rest = pop_first_scalar(b);
        lemma_valid_prefix(rest);
        let v = valid_prefix_len(b);
        let sub = b.subrange(0, v);
        assert(sub.subrange(0, k) =~= b.subrange(0, k));
        assert(rest.subrange(0, valid_prefix_len(rest)) =~= sub.subrange(k, v));
        assert(valid_first_scalar(sub)) by {
            reveal_with_fuel(valid_utf8, 2);
            assert(sub.subrange(0, k) =~= b.subrange(0, k));
            lemma_first_scalar_prefix(b, sub);
        }
        lemma_first_scalar_prefix(b, sub);
        assert(pop_first_scalar(sub) =~= sub.subrange(k, v));
    } else {
        assert(b.subrange(0, 0) =~= Seq::<u8>::empty());
    }
}

/// The first scalar of `b` is read from its first bytes only.
proof fn lemma_first_scalar_prefix(b: Seq<u8>, sub: Seq<u8>)
    requires
        b.len() > 0,
        valid_first_scalar(b),
        length_of_first_scalar(b) <= sub.len() <= b.len(),
        sub =~= b.subrange(0, sub.len() as int),
    ensures
        valid_first_scalar(sub),
        length_of_first_scalar(sub) == length_of_first_scalar(b),
        pop_first_scalar(sub) == sub.subrange(length_of_first_scalar(b), sub.len() as int),
{
}

/// Splits `buf` into text and invalid sequences; returns the pieces and the
/// incomplete character left at the end (empty when there is none).
pub fn process_utf8(buf: &[u8]) -> (r: (Vec<Chunk>, &[u8]))
    ensures
        r.0@.map_values(|c: Chunk| c.view()) == chunks_of(buf@).0,
        r.1@ == buf@.subrange(chunks_of(buf@).1, buf@.len() as int),
        r.1@.len() == 0 || incomplete_scalar(r.1@),
{
    let mut chunks: Vec<Chunk> = Vec::new();
    let mut i: usize = 0;
    let blen = buf.len();
    assert(buf@.subrange(0, buf@.len() as int) =~= buf@);
    assert(chunks@.map_values(|c: Chunk| c.view()) =~= Seq::<ChunkView>::empty());
    loop
        invariant
            blen == buf@.len(),
            i <= buf@.len(),
            chunks@.map_values(|c: Chunk| c.view()) + chunks_of(buf@.subrange(i as int, buf@.len() as int)).0
                == chunks_of(buf@).0,
            i + chunks_of(buf@.subrange(i as int, buf@.len() as int)).1 == chunks_of(buf@).1,
        decreases buf@.len() - i,
    {
        let rest = slice_from(buf, i);
        let ghost b = rest@;
        match from_utf8(rest) {
            Ok(s) => {
                let ghost prev = chunks@.map_values(|c: Chunk| c.view());
                chunks.push(Chunk::Text(s));
                assert(chunks@.map_values(|c: Chunk| c.view()) =~= prev.push(ChunkView::Text(decode_utf8(b))));
                let end = buf.len();
                return (chunks, slice_range(buf, end, end));
            },
            Err((up_to, err)) => {
                proof {
                    lemma_valid_prefix(b);
                }
                let j = i + up_to;
                let text = slice_range(buf, i, j);
                assert(text@ =~= b.subrange(0, up_to as int));
                let s = text_of(text);
                let ghost prev = chunks@.map_values(|c: Chunk| c.view());
                chunks.push(Chunk::Text(s));
                assert(chunks@.map_values(|c: Chunk| c.view()) =~= prev.push(
                    ChunkView::Text(decode_utf8(b.subrange(0, up_to as int))),
                ));
                i = j;
                match err {
                    Some(n) => {
                        let bad = slice_range(buf, i, i + n);
                        assert(bad@ =~= b.subrange(up_to as int, up_to + n));
                        let ghost prev2 = chunks@.map_values(|c: Chunk| c.view());
                        chunks.push(Chunk::Invalid(copy_bytes(bad)));
                        assert(chunks@.map_values(|c: Chunk| c.view()) =~= prev2.push(
                            ChunkView::Invalid(b.subrange(up_to as int, up_to + n)),
                        ));
                        assert(b.subrange(up_to + n, b.len() as int) =~= buf@.subrange(
                            i + n,
                            buf@.len() as int,
                        ));
                        i = i + n;
                    },
                    None => {
                        let end = buf.len();
                        let left = slice_range(buf, i, end);
                        assert(left@ =~= b.subrange(up_to as int, b.len() as int));
                        return (chunks, left);
                    },
                }
            },
        }
    }
}

/// `buf[from..]`.
fn slice_from(buf: &[u8], from: usize) -> (r: &[u8])
    requires
        from <= buf@.len(),
    ensures
        r@ == buf@.subrange(from as int, buf@.len() as int),
{
    let end = buf.len();
    slice_range(buf, from, end)
}

/// `buf[from..to]`.
fn slice_range(buf: &[u8], from: usize, to: usize) -> (r: &[u8])
    requires
        from <= to <= buf@.len(),
    ensures
        r@ == buf@.subrange(from as int, to as int),
{
    &buf[from..to]
}

/// A copy of `b`.
fn copy_bytes(b: &[u8]) -> (v: Vec<u8>)
    ensures
        v@ == b@,
{
    let mut v: Vec<u8> = Vec::new();
    let mut i: usize = 0;
    while i < b.len()
        invariant
            i <= b@.len(),
            v@ == b@.subrange(0, i as int),
        decreases b@.len() - i,
    {
        v.push(b[i]);
        i += 1;
        assert(v@ =~= b@.subrange(0, i as int));
    }
    v
}

/// The text that valid UTF-8 bytes encode.
fn text_of(b: &[u8]) -> (s: String)
    requires
        valid_utf8(b@),
    ensures
        s@ == decode_utf8(b@),
{
    match from_utf8(b) {
        Ok(s) => s,
        Err(_) => String::new(),
    }
}

/// The text pieces of `buf` (invalid sequences are dropped) and the incomplete
/// character left at the end.
pub fn process_utf8_lossy(buf: &[u8]) -> (r: (Vec<String>, &[u8]))
    ensures
        r.0@.map_values(|s: String| s@) == chunks_of(buf@).0.filter(|c: ChunkView| c is Text).map_values(
            |c: ChunkView| c->Text_0,
        ),
        r.1@ == buf@.subrange(chunks_of(buf@).1, buf@.len() as int),
        r.1@.len() == 0 || incomplete_scalar(r.1@),
{
    let (chunks, rest) = process_utf8(buf);
    let mut texts: Vec<String> = Vec::new();
    let ghost views = chunks@.map_values(|c: Chunk| c.view());
    let mut i: usize = 0;
    while i < chunks.len()
        invariant
            i <= chunks@.len(),
            views == chunks@.map_values(|c: Chunk| c.view()),
            texts@.map_values(|s: String| s@) == views.subrange(0, i as int).filter(|c: ChunkView| c is Text).map_values(
                |c: ChunkView| c->Text_0,
            ),
        decreases chunks@.len() - i,
    {
        let ghost prev = texts@.map_values(|s: String| s@);
        match &chunks[i] {
            Chunk::Text(s) => {
                let c = s.clone();
                texts.push(c);
                assert(texts@.map_values(|s: String| s@) =~= prev.push(s@));
                assert(views[i as int] == ChunkView::Text(s@));
            },
            Chunk::Invalid(b) => {
                assert(texts@.map_values(|s: String| s@) =~= prev);
                assert(views[i as int] == ChunkView::Invalid(b@));
            },
        }
        i += 1;
        proof {
            let sub = views.subrange(0, i as int);
            assert(views.subrange(0, i - 1) =~= sub.drop_last());
            reveal_with_fuel(Seq::filter, 1);
            let f = sub.filter(|c: ChunkView| c is Text);
            let g = sub.drop_last().filter(|c: ChunkView| c is Text);
            assert(sub.last() == views[i - 1]);
            if sub.last() is Text {
                assert(f == g.push(sub.last()));
                assert(f.map_values(|c: ChunkView| c->Text_0) =~= g.map_values(|c: ChunkView| c->Text_0).push(
                    sub.last()->Text_0,
                ));
            } else {
                assert(f == g);
            }
            assert(texts@.map_values(|s: String| s@) =~= f.map_values(|c: ChunkView| c->Text_0));
        }
    }
    assert(views.subrange(0, chunks@.len() as int) =~= views);
    (texts, rest)
}

/// The bytes that pieces stand for: the UTF-8 encoding of each text, and
/// each invalid sequence as it is.
pub open spec fn chunk_bytes(cs: Seq<ChunkView>) -> Seq<u8>
    decreases cs.len(),
{
    if cs.len() == 0 {
        seq![]
    } else {
        (match cs[0] {
            ChunkView::Text(t) => encode_utf8(t),
            ChunkView::Invalid(b) => b,
        }) + chunk_bytes(cs.drop_first())
    }
}

proof fn lemma_chunk_bytes_concat(a: Seq<ChunkView>, b: Seq<ChunkView>)
    ensures
        chunk_bytes(a + b) == chunk_bytes(a) + chunk_bytes(b),
    decreases a.len(),
{
    if a.len() == 0 {
        assert(a + b =~= b);
        assert(chunk_bytes(a) + chunk_bytes(b) =~= chunk_bytes(b));
    } else {
        assert((a + b).drop_first() =~= a.drop_first() + b);
        lemma_chunk_bytes_concat(a.drop_first(), b);
        assert((a + b)[0] == a[0]);
        let first = match a[0] {
            ChunkView::Text(t) => encode_utf8(t),
            ChunkView::Invalid(x) => x,
        };
        assert(first + (chunk_bytes(a.drop_first()) + chunk_bytes(b)) =~= (first + chunk_bytes(
            a.drop_first(),
        )) + chunk_bytes(b));
    }
}

/// Splitting loses no byte: the bytes of the pieces, followed by the
/// incomplete character left over, are the input.
pub proof fn lemma_chunks_cover_input(b: Seq<u8>)
    ensures
        0 <= chunks_of(b).1 <= b.len(),
        chunk_bytes(chunks_of(b).0) + b.subrange(chunks_of(b).1, b.len() as int) == b,
    decreases b.len(),
{
    if valid_utf8(b) {
        decode_utf8_encode_utf8(b);
        let cs = chunks_of(b).0;
        assert(cs.drop_first() =~= Seq::<ChunkView>::empty());
        assert(chunk_bytes(Seq::<ChunkView>::empty()) =~= Seq::<u8>::empty());
        assert(cs[0] == ChunkView::Text(decode_utf8(b)));
        assert(chunk_bytes(cs) =~= b);
        assert(b.subrange(b.len() as int, b.len() as int) =~= Seq::<u8>::empty());
        assert(chunk_bytes(cs) + b.subrange(b.len() as int, b.len() as int) =~= b);
    } else {
        lemma_valid_prefix(b);
        let v = valid_prefix_len(b);
        let pre = b.subrange(0, v);
        decode_utf8_encode_utf8(pre);
        let text = ChunkView::Text(decode_utf8(pre));
        let head = seq![text];
        assert(head.drop_first() =~= Seq::<ChunkView>::empty());
        assert(chunk_bytes(Seq::<ChunkView>::empty()) =~= Seq::<u8>::empty());
        assert(head[0] == text);
        assert(chunk_bytes(head) =~= pre);
        match utf8_error_len(b) {
            Some(n) => {
                if 1 <= n && v + n <= b.len() && 0 <= v {
                    let tail = b.subrange(v + n, b.len() as int);
                    lemma_chunks_cover_input(tail);
                    let (rest, used) = chunks_of(tail);
                    let bad = ChunkView::Invalid(b.subrange(v, v + n));
                    let two = seq![text, bad];
                    assert(two.drop_first() =~= seq![bad]);
                    assert(seq![bad].drop_first() =~= Seq::<ChunkView>::empty());
                    assert(chunk_bytes(seq![bad]) =~= b.subrange(v, v + n));
                    assert(chunk_bytes(two) =~= pre + b.subrange(v, v + n));
                    lemma_chunk_bytes_concat(two, rest);
                    assert(b.subrange(v + n + used, b.len() as int) =~= tail.subrange(used, tail.len() as int));
                    assert(pre + b.subrange(v, v + n) + tail =~= b);
                    assert(chunk_bytes(two + rest) + b.subrange(v + n + used, b.len() as int) =~= b);
                } else {
                    assert(chunk_bytes(head) + b.subrange(v, b.len() as int) =~= b);
                }
            },
            None => {
                assert(chunk_bytes(head) + b.subrange(v, b.len() as int) =~= b);
            },
        }
    }
}

} // verus!
