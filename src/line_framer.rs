//! Turning a byte stream into lines with a bounded buffer.
use vstd::prelude::*;
use vstd::slice::slice_subrange;
use vstd::slice::slice_to_vec;

verus! {

/// Capacity of the pending-bytes buffer of a [`LineHelper`].
pub const BUFFER_SIZE: usize = 8192;

pub const NEWLINE: u8 = 10;

pub const CARRIAGE_RETURN: u8 = 13;

/// The text that `String::from_utf8_lossy` makes of a byte sequence.
pub uninterp spec fn lossy_text(b: Seq<u8>) -> Seq<char>;

/// Relies on `String::from_utf8_lossy`: invalid sequences are replaced, the
/// result depends on the bytes alone, and no bytes give the empty string.
#[verifier::external_body]
fn decode_lossy(b: &[u8]) -> (r: String)
    ensures
        r@ == lossy_text(b@),
        b@.len() == 0 ==> r@.len() == 0,
{
    String::from_utf8_lossy(b).into_owned()
}

/// `i` is the position of the first newline byte of `s`.
pub open spec fn is_first_newline(s: Seq<u8>, i: int) -> bool {
    0 <= i < s.len() && s[i] == NEWLINE && forall|j: int| 0 <= j < i ==> s[j] != NEWLINE
}

/// A line without the carriage return that stood just before its newline.
pub open spec fn strip_cr(line: Seq<u8>) -> Seq<u8> {
    if line.len() > 0 && line.last() == CARRIAGE_RETURN {
        line.drop_last()
    } else {
        line
    }
}

/// The complete lines of `s`, in order and with carriage returns stripped,
/// and the bytes after the last newline.
pub open spec fn split_lines(s: Seq<u8>) -> (Seq<Seq<u8>>, Seq<u8>)
    decreases s.len(),
{
    if exists|i: int| is_first_newline(s, i) {
        let i = choose|i: int| is_first_newline(s, i);
        let rest = split_lines(s.subrange(i + 1, s.len() as int));
        (seq![strip_cr(s.subrange(0, i))] + rest.0, rest.1)
    } else {
        (seq![], s)
    }
}

/// What one `append` of `chunk` to pending bytes `pending` yields: the raw
/// lines (a flushed partial line first, where the chunk does not fit) and the
/// bytes left pending.
pub open spec fn append_step(pending: Seq<u8>, chunk: Seq<u8>) -> (Seq<Seq<u8>>, Seq<u8>) {
    if pending.len() + chunk.len() > BUFFER_SIZE {
        let r = split_lines(chunk);
        (seq![pending] + r.0, r.1)
    } else {
        split_lines(pending + chunk)
    }
}

/// What `finish` yields of the pending bytes.
pub open spec fn finish_lines(pending: Seq<u8>) -> Seq<Seq<u8>> {
    if pending.len() == 0 {
        seq![]
    } else {
        seq![pending]
    }
}

/// The decoded text of each raw line.
pub open spec fn decode_all(lines: Seq<Seq<u8>>) -> Seq<Seq<char>> {
    lines.map_values(|l: Seq<u8>| lossy_text(l))
}

/// Splitting at the first newline: the line before it, then the lines of
/// what follows it.
pub proof fn lemma_split_at_first(s: Seq<u8>, i: int)
    requires
        is_first_newline(s, i),
    ensures
        split_lines(s) == ((seq![strip_cr(s.subrange(0, i))] + split_lines(
            s.subrange(i + 1, s.len() as int),
        ).0), split_lines(s.subrange(i + 1, s.len() as int)).1),
{
    let k = choose|k: int| is_first_newline(s, k);
    assert(is_first_newline(s, k));
    if k < i {
        assert(s[k] != NEWLINE);
    } else if i < k {
        assert(s[i] != NEWLINE);
    }
    assert(k == i);
}

/// The chunks can be appended one after the other, starting from `pending`,
/// without any of them overflowing the buffer.
pub open spec fn fits(pending: Seq<u8>, chunks: Seq<Seq<u8>>) -> bool
    decreases chunks.len(),
{
    chunks.len() == 0 || (pending.len() + chunks[0].len() <= BUFFER_SIZE && fits(
        append_step(pending, chunks[0]).1,
        chunks.drop_first(),
    ))
}

/// The raw lines yielded by appending each chunk in turn to `pending`, and
/// the bytes left pending at the end.
pub open spec fn append_all(pending: Seq<u8>, chunks: Seq<Seq<u8>>) -> (Seq<Seq<u8>>, Seq<u8>)
    decreases chunks.len(),
{
    if chunks.len() == 0 {
        (seq![], pending)
    } else {
        let first = append_step(pending, chunks[0]);
        let rest = append_all(first.1, chunks.drop_first());
        (first.0 + rest.0, rest.1)
    }
}

/// `s` holds no newline byte.
pub open spec fn no_newline(s: Seq<u8>) -> bool {
    forall|j: int| 0 <= j < s.len() ==> s[j] != NEWLINE
}

/// A newline anywhere means there is a first one.
pub proof fn lemma_first_newline_exists(s: Seq<u8>, j: int)
    requires
        0 <= j < s.len(),
        s[j] == NEWLINE,
    ensures
        exists|i: int| is_first_newline(s, i),
    decreases j,
{
    if exists|m: int| 0 <= m < j && s[m] == NEWLINE {
        let m = choose|m: int| 0 <= m < j && s[m] == NEWLINE;
        lemma_first_newline_exists(s, m);
    } else {
        assert(is_first_newline(s, j));
    }
}

/// What stays pending after splitting holds no newline.
pub proof fn lemma_rest_no_newline(s: Seq<u8>)
    ensures
        no_newline(split_lines(s).1),
    decreases s.len(),
{
    if exists|i: int| is_first_newline(s, i) {
        let i = choose|i: int| is_first_newline(s, i);
        lemma_split_at_first(s, i);
        lemma_rest_no_newline(s.subrange(i + 1, s.len() as int));
    } else {
        assert forall|j: int| 0 <= j < s.len() implies s[j] != NEWLINE by {
            if s[j] == NEWLINE {
                lemma_first_newline_exists(s, j);
            }
        }
    }
}

/// Splitting a concatenation: the lines of the first part, then those of its
/// remainder followed by the second part.
pub proof fn lemma_split_concat(a: Seq<u8>, b: Seq<u8>)
    ensures
        split_lines(a + b) == (split_lines(a).0 + split_lines(split_lines(a).1 + b).0,
        split_lines(split_lines(a).1 + b).1),
    decreases a.len(),
{
    if exists|i: int| is_first_newline(a, i) {
        let i = choose|i: int| is_first_newline(a, i);
        let ab = a + b;
        assert(is_first_newline(ab, i));
        lemma_split_at_first(a, i);
        lemma_split_at_first(ab, i);
        let a2 = a.subrange(i + 1, a.len() as int);
        assert(ab.subrange(i + 1, ab.len() as int) =~= a2 + b);
        assert(ab.subrange(0, i) =~= a.subrange(0, i));
        lemma_split_concat(a2, b);
        let head = seq![strip_cr(a.subrange(0, i))];
        assert(head + (split_lines(a2).0 + split_lines(split_lines(a2).1 + b).0) =~= (head
            + split_lines(a2).0) + split_lines(split_lines(a2).1 + b).0);
    } else {
        assert(split_lines(a) == (Seq::<Seq<u8>>::empty(), a));
        assert(Seq::<Seq<u8>>::empty() + split_lines(a + b).0 =~= split_lines(a + b).0);
    }
}

/// Appending chunks that fit, from `pending`, yields the lines of `pending`
/// followed by all the chunks, and leaves pending what follows their last
/// newline.
pub proof fn lemma_append_all(pending: Seq<u8>, chunks: Seq<Seq<u8>>)
    requires
        fits(pending, chunks),
        no_newline(pending),
    ensures
        append_all(pending, chunks) == split_lines(pending + chunks.flatten()),
    decreases chunks.len(),
{
    if chunks.len() == 0 {
        assert(pending + chunks.flatten() =~= pending);
        assert(!exists|i: int| is_first_newline(pending, i));
        assert(split_lines(pending) == (Seq::<Seq<u8>>::empty(), pending));
    } else {
        let c = chunks[0];
        let rest = chunks.drop_first();
        let r = split_lines(pending + c);
        lemma_rest_no_newline(pending + c);
        lemma_append_all(r.1, rest);
        lemma_split_concat(pending + c, rest.flatten());
        assert(pending + c + rest.flatten() =~= pending + chunks.flatten());
    }
}

/// Framing a stream chunk by chunk, then finishing, gives the lines of the
/// whole stream in order, carriage returns stripped, followed by its
/// unterminated remainder if that is not empty; so long as no chunk
/// overflows the buffer.
pub proof fn line_framing_round_trip(chunks: Seq<Seq<u8>>)
    requires
        fits(Seq::<u8>::empty(), chunks),
    ensures
        append_all(Seq::<u8>::empty(), chunks).0 + finish_lines(
            append_all(Seq::<u8>::empty(), chunks).1,
        ) == split_lines(chunks.flatten()).0 + finish_lines(split_lines(chunks.flatten()).1),
{
    lemma_append_all(Seq::<u8>::empty(), chunks);
    assert(Seq::<u8>::empty() + chunks.flatten() =~= chunks.flatten());
}

/// Position of the first newline byte of `s`, if any.
pub fn find_newline(s: &[u8]) -> (r: Option<usize>)
    ensures
        match r {
            Some(i) => is_first_newline(s@, i as int),
            None => forall|j: int| 0 <= j < s@.len() ==> s@[j] != NEWLINE,
        },
{
    let mut i: usize = 0;
    while i < s.len()
        invariant
            i <= s@.len(),
            forall|j: int| 0 <= j < i ==> s@[j] != NEWLINE,
        decreases s@.len() - i,
    {
        if s[i] == NEWLINE {
            return Some(i);
        }
        i = i + 1;
    }
    None
}

/// Splits a byte stream into lines, holding at most [`BUFFER_SIZE`] bytes of
/// an unfinished line.
pub struct LineHelper {
    buffer: Vec<u8>,
}

impl LineHelper {
    /// The bytes of the unfinished line.
    pub closed spec fn pending(&self) -> Seq<u8> {
        self.buffer@
    }

    pub closed spec fn wf(&self) -> bool {
        self.buffer@.len() <= BUFFER_SIZE
    }

    pub fn new() -> (r: LineHelper)
        ensures
            r.wf(),
            r.pending() == Seq::<u8>::empty(),
    {
        LineHelper { buffer: Vec::new() }
    }

    /// Takes in a chunk of bytes and returns the lines completed by it. Where
    /// the chunk does not fit beside the pending bytes, those are first
    /// returned as a line of their own.
    pub fn append(&mut self, new_data: &[u8]) -> (r: Vec<String>)
        requires
            old(self).wf(),
            new_data@.len() <= BUFFER_SIZE,
        ensures
            final(self).wf(),
            r@.map_values(|l: String| l@) == decode_all(
                append_step(old(self).pending(), new_data@).0,
            ),
            final(self).pending() == append_step(old(self).pending(), new_data@).1,
    {
        let ghost target = append_step(self.buffer@, new_data@);
        let ghost mut raw: Seq<Seq<u8>> = seq![];
        let mut res: Vec<String> = Vec::new();
        if new_data.len() + self.buffer.len() > BUFFER_SIZE {
            let line = decode_lossy(self.buffer.as_slice());
            proof {
                raw = seq![self.buffer@];
            }
            res.push(line);
            self.buffer = Vec::new();
        }
        let ghost base = self.buffer@;
        let mut k: usize = 0;
        while k < new_data.len()
            invariant
                k <= new_data@.len(),
                self.buffer@ == base + new_data@.subrange(0, k as int),
            decreases new_data@.len() - k,
        {
            self.buffer.push(new_data[k]);
            k = k + 1;
            assert(self.buffer@ =~= base + new_data@.subrange(0, k as int));
        }
        assert(new_data@.subrange(0, new_data@.len() as int) =~= new_data@);
        assert(raw + split_lines(self.buffer@).0 =~= target.0);
        loop
            invariant
                self.buffer@.len() <= BUFFER_SIZE,
                res@.map_values(|l: String| l@) == decode_all(raw),
                raw + split_lines(self.buffer@).0 == target.0,
                split_lines(self.buffer@).1 == target.1,
            ensures
                self.buffer@.len() <= BUFFER_SIZE,
                res@.map_values(|l: String| l@) == decode_all(target.0),
                self.buffer@ == target.1,
            decreases self.buffer@.len(),
        {
            match find_newline(self.buffer.as_slice()) {
                None => {
                    assert(!exists|i: int| is_first_newline(self.buffer@, i));
                    assert(split_lines(self.buffer@) == (Seq::<Seq<u8>>::empty(), self.buffer@));
                    assert(raw + split_lines(self.buffer@).0 =~= raw);
                    assert(raw == target.0);
                    break;
                },
                Some(idx) => {
                    let ghost buf = self.buffer@;
                    proof {
                        lemma_split_at_first(buf, idx as int);
                    }
                    let end: usize = if idx > 0 && self.buffer[idx - 1] == CARRIAGE_RETURN {
                        idx - 1
                    } else {
                        idx
                    };
                    assert(buf.subrange(0, end as int) =~= strip_cr(buf.subrange(0, idx as int)));
                    let line = decode_lossy(slice_subrange(self.buffer.as_slice(), 0, end));
                    let rest = slice_to_vec(
                        slice_subrange(self.buffer.as_slice(), idx + 1, self.buffer.len()),
                    );
                    proof {
                        let stripped = strip_cr(buf.subrange(0, idx as int));
                        let tail = split_lines(buf.subrange(idx + 1, buf.len() as int)).0;
                        assert(raw.push(stripped) + tail =~= raw + (seq![stripped] + tail));
                        assert(decode_all(raw.push(stripped)) =~= decode_all(raw).push(
                            lossy_text(stripped),
                        ));
                        raw = raw.push(stripped);
                    }
                    res.push(line);
                    assert(res@.map_values(|l: String| l@) =~= decode_all(raw));
                    self.buffer = rest;
                },
            }
        }
        res
    }

    /// Consumes the helper and returns the unfinished line, if any bytes are
    /// pending.
    pub fn finish(self) -> (r: Option<String>)
        requires
            self.wf(),
        ensures
            match r {
                Some(l) => self.pending().len() > 0 && l@ == lossy_text(self.pending()),
                None => self.pending().len() == 0,
            },
    {
        if self.buffer.len() == 0 {
            None
        } else {
            Some(decode_lossy(self.buffer.as_slice()))
        }
    }
}

} // verus!
