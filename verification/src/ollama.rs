use vstd::prelude::*;
use vstd::string::*;
use vstd::utf8::*;

use crate::text::{
    chars_of, find_char, is_white_space, law_trim_idempotent, law_trimmed_shape, lemma_find_char, string_from_chars, trim_ws, trimmed,
};

verus! {

/// Abstract content of a chat message.
pub struct MessageView {
    pub role: Seq<char>,
    pub content: Seq<char>,
}

/// One message of a chat conversation: who speaks, and what is said.
#[derive(Clone, Debug)]
pub struct Message {
    role: String,
    content: String,
}

impl View for Message {
    type V = MessageView;

    closed spec fn view(&self) -> MessageView {
        MessageView { role: self.role@, content: self.content@ }
    }
}

/// The message `content` spoken by `role`.
pub open spec fn message_of(role: Seq<char>, content: Seq<char>) -> MessageView {
    MessageView { role, content }
}

impl Message {
    /// A system (instructions) message.
    pub fn system(content: &str) -> (m: Message)
        ensures
            m@ == message_of("system"@, content@),
    {
        Message { role: String::from_str("system"), content: content.to_owned() }
    }

    /// A message from the user.
    pub fn user(content: &str) -> (m: Message)
        ensures
            m@ == message_of("user"@, content@),
    {
        Message { role: String::from_str("user"), content: content.to_owned() }
    }

    /// A message from the model.
    pub fn assistant(content: &str) -> (m: Message)
        ensures
            m@ == message_of("assistant"@, content@),
    {
        Message { role: String::from_str("assistant"), content: content.to_owned() }
    }

    /// Who speaks.
    pub fn role(&self) -> (r: &str)
        ensures
            r@ == self@.role,
    {
        self.role.as_str()
    }

    /// What is said.
    pub fn content(&self) -> (r: &str)
        ensures
            r@ == self@.content,
    {
        self.content.as_str()
    }
}

/// `s` without its trailing `/` characters.
pub open spec fn without_trailing_slashes(s: Seq<char>) -> Seq<char>
    decreases s.len(),
{
    if s.len() > 0 && s.last() == '/' {
        without_trailing_slashes(s.drop_last())
    } else {
        s
    }
}

/// Where the Ollama server listens; the HTTP transport itself lives with the
/// program that performs the requests.
#[derive(Clone, Debug)]
pub struct OllamaClient {
    host: String,
}

impl View for OllamaClient {
    type V = Seq<char>;

    closed spec fn view(&self) -> Seq<char> {
        self.host@
    }
}

impl OllamaClient {
    /// A client for the server at `host`, trailing slashes removed.
    pub fn new(host: &str) -> (r: OllamaClient)
        ensures
            r@ == without_trailing_slashes(host@),
    {
        let v = chars_of(host);
        let mut n = v.len();
        assert(host@.subrange(0, n as int) =~= host@);
        while n > 0 && v[n - 1] == '/'
            invariant
                v@ == host@,
                n <= v.len(),
                without_trailing_slashes(host@.subrange(0, n as int)) == without_trailing_slashes(
                    host@,
                ),
            decreases n,
        {
            assert(host@.subrange(0, n as int).drop_last() =~= host@.subrange(0, n - 1));
            n = n - 1;
        }
        OllamaClient { host: string_from_chars(&v, 0, n) }
    }

    /// The server address.
    pub fn host(&self) -> (r: &str)
        ensures
            r@ == self@,
    {
        self.host.as_str()
    }

    /// Endpoint of chat requests.
    pub fn chat_url(&self) -> (r: String)
        ensures
            r@ == self@ + "/api/chat"@,
    {
        let mut r = self.host.clone();
        r.append("/api/chat");
        r
    }

    /// Endpoint that lists the local models.
    pub fn tags_url(&self) -> (r: String)
        ensures
            r@ == self@ + "/api/tags"@,
    {
        let mut r = self.host.clone();
        r.append("/api/tags");
        r
    }
}

/// What `String::from_utf8_lossy` makes of `bytes`.
pub uninterp spec fn utf8_lossy(bytes: Seq<u8>) -> Seq<char>;

/// `String::from_utf8_lossy`: decodes `bytes` as UTF-8, each invalid sequence
/// becoming U+FFFD. Claimed: the result is a function of the bytes, and valid
/// UTF-8 is decoded as it stands.
#[verifier::external_body]
fn decode_lossy(bytes: &[u8]) -> (r: String)
    ensures
        r@ == utf8_lossy(bytes@),
        valid_utf8(bytes@) ==> r@ == decode_utf8(bytes@),
{
    String::from_utf8_lossy(bytes).into_owned()
}

/// The next non-blank line of a stream buffer, trimmed, and the buffer that is
/// left after it; `None` (and the buffer as it is) when no complete non-blank
/// line is buffered. Blank lines before it are dropped.
pub open spec fn split_next_line(buffer: Seq<char>) -> (Option<Seq<char>>, Seq<char>)
    decreases buffer.len(),
{
    match find_char(buffer, '\n', 0) {
        None => (None, buffer),
        Some(i) => {
            proof {
                lemma_find_char(buffer, '\n', 0);
            }
            let line = trimmed(buffer.subrange(0, i));
            let rest = buffer.subrange(i + 1, buffer.len() as int);
            if line.len() > 0 {
                (Some(line), rest)
            } else {
                split_next_line(rest)
            }
        },
    }
}

/// A client's host never ends with `/`, and a client built from that host has
/// the same host.
pub proof fn law_host_normalized(host: Seq<char>)
    ensures
        without_trailing_slashes(host).len() == 0 || without_trailing_slashes(host).last() != '/',
        without_trailing_slashes(without_trailing_slashes(host)) == without_trailing_slashes(host),
    decreases host.len(),
{
    if host.len() > 0 && host.last() == '/' {
        law_host_normalized(host.drop_last());
    }
}

/// When the text before the first newline of the buffer is not blank, the
/// line taken is exactly that text without the white space around it: it
/// starts and ends with a non-blank character, keeps every character in
/// between (spaces included), and only white space is dropped on either side;
/// the buffer then resumes right after that newline.
pub proof fn law_next_line_is_first_line(buffer: Seq<char>, i: int)
    requires
        0 <= i < buffer.len(),
        buffer[i] == '\n',
        forall|j: int| 0 <= j < i ==> buffer[j] != '\n',
        exists|j: int| 0 <= j < i && !is_white_space(buffer[j]),
    ensures
        exists|lo: int, hi: int|
            {
                &&& 0 <= lo < hi <= i
                &&& split_next_line(buffer) == (
                    Some(buffer.subrange(lo, hi)),
                    buffer.subrange(i + 1, buffer.len() as int),
                )
                &&& !is_white_space(buffer[lo])
                &&& !is_white_space(buffer[hi - 1])
                &&& forall|j: int| 0 <= j < lo ==> is_white_space(#[trigger] buffer[j])
                &&& forall|j: int| hi <= j < i ==> is_white_space(#[trigger] buffer[j])
            },
{
    lemma_find_char(buffer, '\n', 0);
    assert(find_char(buffer, '\n', 0) == Some(i));
    let head = buffer.subrange(0, i);
    let span = law_trimmed_shape(head);
    let w = choose|j: int| 0 <= j < i && !is_white_space(buffer[j]);
    assert(head[w] == buffer[w]);
    if span.0 == span.1 {
        if w < span.0 {
            assert(is_white_space(head[w]));
        } else {
            assert(is_white_space(head[w]));
        }
    }
    let (lo, hi) = span;
    assert(trimmed(head) =~= buffer.subrange(lo, hi));
    assert(head[lo] == buffer[lo]);
    assert(head[hi - 1] == buffer[hi - 1]);
    assert forall|j: int| 0 <= j < lo implies is_white_space(#[trigger] buffer[j]) by {
        assert(head[j] == buffer[j]);
    }
    assert forall|j: int| hi <= j < i implies is_white_space(#[trigger] buffer[j]) by {
        assert(head[j] == buffer[j]);
    }
    assert(lo < hi);
    assert(split_next_line(buffer) == (
        Some(buffer.subrange(lo, hi)),
        buffer.subrange(i + 1, buffer.len() as int),
    ));
}

/// A line taken from the stream is never blank and has no surrounding white
/// space; what stays buffered is the end of the buffer; when no line can be
/// taken, no newline stays buffered.
pub proof fn law_stream_lines(buffer: Seq<char>)
    ensures
        split_next_line(buffer).0 matches Some(l) ==> l.len() > 0 && trimmed(l) == l,
        exists|k: int|
            0 <= k <= buffer.len() && #[trigger] buffer.subrange(k, buffer.len() as int)
                == split_next_line(buffer).1,
        split_next_line(buffer).0 is None ==> !split_next_line(buffer).1.contains('\n'),
    decreases buffer.len(),
{
    lemma_find_char(buffer, '\n', 0);
    match find_char(buffer, '\n', 0) {
        None => {
            assert(buffer.subrange(0, buffer.len() as int) =~= buffer);
            if buffer.contains('\n') {
                let j = choose|j: int| 0 <= j < buffer.len() && buffer[j] == '\n';
                assert(buffer[j] == '\n');
            }
        },
        Some(i) => {
            let line = trimmed(buffer.subrange(0, i));
            let rest = buffer.subrange(i + 1, buffer.len() as int);
            law_trim_idempotent(buffer.subrange(0, i));
            if line.len() > 0 {
                assert(buffer.subrange(i + 1, buffer.len() as int) == split_next_line(buffer).1);
            } else {
                law_stream_lines(rest);
                let k = choose|k: int|
                    0 <= k <= rest.len() && #[trigger] rest.subrange(k, rest.len() as int)
                        == split_next_line(rest).1;
                assert(buffer.subrange(i + 1 + k, buffer.len() as int) =~= rest.subrange(
                    k,
                    rest.len() as int,
                ));
            }
        },
    }
}

/// Taking a line shortens the buffer; nothing ever lengthens it.
pub proof fn lemma_split_shrinks(buffer: Seq<char>)
    ensures
        split_next_line(buffer).0 is Some ==> split_next_line(buffer).1.len() < buffer.len(),
        split_next_line(buffer).1.len() <= buffer.len(),
    decreases buffer.len(),
{
    lemma_find_char(buffer, '\n', 0);
    if let Some(i) = find_char(buffer, '\n', 0) {
        let rest = buffer.subrange(i + 1, buffer.len() as int);
        lemma_split_shrinks(rest);
    }
}

/// Every complete non-blank line of a buffer, trimmed and in order, with what
/// is left once they are all taken: what a stream reader gets by taking lines
/// until none is left.
pub open spec fn drain_lines(buffer: Seq<char>) -> (Seq<Seq<char>>, Seq<char>)
    decreases buffer.len(),
{
    match split_next_line(buffer).0 {
        None => (Seq::empty(), split_next_line(buffer).1),
        Some(line) => {
            proof {
                lemma_split_shrinks(buffer);
            }
            let rest = drain_lines(split_next_line(buffer).1);
            (seq![line] + rest.0, rest.1)
        },
    }
}

proof fn lemma_find_char_extended(a: Seq<char>, b: Seq<char>, c: char, i: int)
    requires
        0 <= i,
        find_char(a, c, i) is Some,
    ensures
        find_char(a + b, c, i) == find_char(a, c, i),
    decreases a.len() - i,
{
    if i < a.len() && a[i] != c {
        lemma_find_char_extended(a, b, c, i + 1);
    }
}

/// Taking the next line from a buffer that received more text: the same line
/// with the new text behind what is left, or, when the old buffer held no
/// complete non-blank line, the next line of what was left followed by the
/// new text.
proof fn lemma_split_append(a: Seq<char>, b: Seq<char>)
    ensures
        split_next_line(a + b) == if split_next_line(a).0 is Some {
            (split_next_line(a).0, split_next_line(a).1 + b)
        } else {
            split_next_line(split_next_line(a).1 + b)
        },
    decreases a.len(),
{
    lemma_find_char(a, '\n', 0);
    match find_char(a, '\n', 0) {
        None => {},
        Some(i) => {
            lemma_find_char_extended(a, b, '\n', 0);
            let ab = a + b;
            assert(ab.subrange(0, i) =~= a.subrange(0, i));
            let rest = a.subrange(i + 1, a.len() as int);
            assert(ab.subrange(i + 1, ab.len() as int) =~= rest + b);
            lemma_split_append(rest, b);
        },
    }
}

/// The lines read from a stream do not depend on how it is cut into chunks:
/// draining the lines of `a`, then those of what was left followed by `b`,
/// gives the lines and the leftover of draining `a + b` at once.
pub proof fn law_stream_chunking(a: Seq<char>, b: Seq<char>)
    ensures
        drain_lines(a + b) == (drain_lines(a).0 + drain_lines(drain_lines(a).1 + b).0, drain_lines(
            drain_lines(a).1 + b,
        ).1),
    decreases a.len(),
{
    lemma_split_append(a, b);
    lemma_split_shrinks(a);
    match split_next_line(a).0 {
        None => {
            assert(drain_lines(a).0 =~= Seq::<Seq<char>>::empty());
            assert(drain_lines(a).0 + drain_lines(drain_lines(a).1 + b).0 =~= drain_lines(
                drain_lines(a).1 + b,
            ).0);
        },
        Some(line) => {
            let r = split_next_line(a).1;
            law_stream_chunking(r, b);
            assert(drain_lines(a + b).0 =~= seq![line] + drain_lines(r + b).0);
            assert(drain_lines(a).0 + drain_lines(drain_lines(a).1 + b).0 =~= seq![line] + (
            drain_lines(r).0 + drain_lines(drain_lines(r).1 + b).0));
        },
    }
}

proof fn lemma_encode_append(x: Seq<char>, y: Seq<char>)
    ensures
        encode_utf8(x + y) == encode_utf8(x) + encode_utf8(y),
    decreases x.len(),
{
    if x.len() > 0 {
        lemma_encode_append(x.drop_first(), y);
        assert((x + y).drop_first() =~= x.drop_first() + y);
        assert(encode_utf8(x + y) =~= encode_utf8(x) + encode_utf8(y));
    } else {
        assert(x + y =~= y);
        assert(encode_utf8(x) + encode_utf8(y) =~= encode_utf8(y));
    }
}

/// Chunks that each hold whole characters decode, together, to the
/// concatenation of their decodings: with `law_stream_chunking`, the lines read
/// from a stream do not depend on where such chunks are cut.
pub proof fn law_chunks_decode_separately(c1: Seq<u8>, c2: Seq<u8>)
    requires
        valid_utf8(c1),
        valid_utf8(c2),
    ensures
        valid_utf8(c1 + c2),
        decode_utf8(c1 + c2) == decode_utf8(c1) + decode_utf8(c2),
{
    let d1 = decode_utf8(c1);
    let d2 = decode_utf8(c2);
    decode_utf8_encode_utf8(c1);
    decode_utf8_encode_utf8(c2);
    lemma_encode_append(d1, d2);
    encode_utf8_valid_utf8(d1 + d2);
    encode_utf8_decode_utf8(d1 + d2);
}

proof fn lemma_drained_leftover(buffer: Seq<char>)
    ensures
        drain_lines(drain_lines(buffer).1) == (Seq::<Seq<char>>::empty(), drain_lines(buffer).1),
    decreases buffer.len(),
{
    lemma_split_shrinks(buffer);
    law_stream_lines(buffer);
    match split_next_line(buffer).0 {
        None => {
            let r = split_next_line(buffer).1;
            lemma_find_char(r, '\n', 0);
            if find_char(r, '\n', 0) is Some {
                assert(r.contains('\n'));
            }
        },
        Some(_) => {
            lemma_drained_leftover(split_next_line(buffer).1);
        },
    }
}

/// The lines and the leftover of a stream whose chunks arrive one after the
/// other, every complete line being taken as soon as its chunk has arrived;
/// `buffer` is what was left before the first chunk.
pub open spec fn read_chunks(buffer: Seq<char>, chunks: Seq<Seq<char>>) -> (
    Seq<Seq<char>>,
    Seq<char>,
)
    decreases chunks.len(),
{
    if chunks.len() == 0 {
        (Seq::empty(), buffer)
    } else {
        let now = drain_lines(buffer + chunks[0]);
        let later = read_chunks(now.1, chunks.drop_first());
        (now.0 + later.0, later.1)
    }
}

/// However a stream is cut into chunks, reading them one by one gives the
/// lines and the leftover of the whole text read at once.
pub proof fn law_stream_any_chunking(buffer: Seq<char>, chunks: Seq<Seq<char>>)
    requires
        drain_lines(buffer) == (Seq::<Seq<char>>::empty(), buffer),
    ensures
        read_chunks(buffer, chunks) == drain_lines(buffer + chunks.flatten()),
    decreases chunks.len(),
{
    if chunks.len() == 0 {
        assert(buffer + chunks.flatten() =~= buffer);
    } else {
        let first = buffer + chunks[0];
        let now = drain_lines(first);
        lemma_drained_leftover(first);
        law_stream_any_chunking(now.1, chunks.drop_first());
        law_stream_chunking(first, chunks.drop_first().flatten());
        assert(buffer + chunks.flatten() =~= first + chunks.drop_first().flatten());
        assert(now.0 + read_chunks(now.1, chunks.drop_first()).0 =~= drain_lines(
            buffer + chunks.flatten(),
        ).0);
    }
}

/// Byte chunks that each hold whole characters: decoding them one by one and
/// reading them as a stream gives the lines and the leftover of the whole body.
pub proof fn law_stream_byte_chunking(chunks: Seq<Seq<u8>>)
    requires
        forall|i: int| 0 <= i < chunks.len() ==> valid_utf8(#[trigger] chunks[i]),
    ensures
        valid_utf8(chunks.flatten()),
        read_chunks(Seq::empty(), chunks.map_values(|c: Seq<u8>| decode_utf8(c))) == drain_lines(
            decode_utf8(chunks.flatten()),
        ),
{
    lemma_decode_flatten(chunks);
    assert(drain_lines(Seq::<char>::empty()) == (Seq::<Seq<char>>::empty(), Seq::<char>::empty()))
        by {
        lemma_find_char(Seq::<char>::empty(), '\n', 0);
    }
    law_stream_any_chunking(Seq::empty(), chunks.map_values(|c: Seq<u8>| decode_utf8(c)));
    assert(Seq::<char>::empty() + chunks.map_values(|c: Seq<u8>| decode_utf8(c)).flatten()
        =~= decode_utf8(chunks.flatten()));
}

proof fn lemma_decode_flatten(chunks: Seq<Seq<u8>>)
    requires
        forall|i: int| 0 <= i < chunks.len() ==> valid_utf8(#[trigger] chunks[i]),
    ensures
        valid_utf8(chunks.flatten()),
        decode_utf8(chunks.flatten()) == chunks.map_values(|c: Seq<u8>| decode_utf8(c)).flatten(),
    decreases chunks.len(),
{
    if chunks.len() > 0 {
        let rest = chunks.drop_first();
        assert forall|i: int| 0 <= i < rest.len() implies valid_utf8(#[trigger] rest[i]) by {
            assert(rest[i] == chunks[i + 1]);
        }
        lemma_decode_flatten(rest);
        assert(valid_utf8(chunks[0]));
        law_chunks_decode_separately(chunks[0], rest.flatten());
        assert(chunks.map_values(|c: Seq<u8>| decode_utf8(c)).drop_first() =~= rest.map_values(
            |c: Seq<u8>| decode_utf8(c),
        ));
    } else {
        assert(valid_utf8(Seq::<u8>::empty()));
        assert(decode_utf8(Seq::<u8>::empty()) =~= Seq::<char>::empty());
    }
}

/// Abstract state of a streamed chat answer.
pub struct ChatStreamView {
    /// Received text that does not form a complete line yet.
    pub buffer: Seq<char>,
    /// Answer text gathered so far.
    pub output: Seq<char>,
}

/// Reassembles a streamed chat answer: the server sends one JSON object per
/// line, in chunks that may split lines anywhere.
pub struct ChatStream {
    buffer: String,
    output: String,
}

impl View for ChatStream {
    type V = ChatStreamView;

    closed spec fn view(&self) -> ChatStreamView {
        ChatStreamView { buffer: self.buffer@, output: self.output@ }
    }
}

impl ChatStream {
    /// A stream that has received nothing.
    pub fn new() -> (r: ChatStream)
        ensures
            r@ == (ChatStreamView { buffer: Seq::empty(), output: Seq::empty() }),
    {
        ChatStream { buffer: String::new(), output: String::new() }
    }

    /// Adds a received chunk of bytes, decoded leniently, to the buffer.
    pub fn push_bytes(&mut self, chunk: &[u8])
        ensures
            final(self)@.buffer == old(self)@.buffer + utf8_lossy(chunk@),
            valid_utf8(chunk@) ==> final(self)@.buffer == old(self)@.buffer + decode_utf8(chunk@),
            final(self)@.output == old(self)@.output,
    {
        let text = decode_lossy(chunk);
        self.buffer.append(text.as_str());
    }

    /// Takes the next complete non-blank line out of the buffer, trimmed.
    pub fn next_line(&mut self) -> (r: Option<String>)
        ensures
            split_next_line(old(self)@.buffer).0 matches Some(l) ==> r is Some && r->0@ == l,
            split_next_line(old(self)@.buffer).0 is None ==> r is None,
            final(self)@.buffer == split_next_line(old(self)@.buffer).1,
            final(self)@.output == old(self)@.output,
    {
        loop
            invariant
                split_next_line(self@.buffer) == split_next_line(old(self)@.buffer),
                self@.output == old(self)@.output,
            decreases self@.buffer.len(),
        {
            let v = chars_of(self.buffer.as_str());
            let mut i: usize = 0;
            while i < v.len() && v[i] != '\n'
                invariant
                    v@ == self@.buffer,
                    i <= v.len(),
                    find_char(v@, '\n', i as int) == find_char(v@, '\n', 0),
                decreases v.len() - i,
            {
                i = i + 1;
            }
            if i == v.len() {
                return None;
            }
            let ghost old_buffer = self@.buffer;
            let head = string_from_chars(&v, 0, i);
            let line = trim_ws(head.as_str()).to_owned();
            self.buffer = string_from_chars(&v, i + 1, v.len());
            if line.as_str().as_bytes().len() > 0 {
                return Some(line);
            }
            assert(line@.len() == 0);
        }
    }

    /// Records one decoded chunk of the answer: its text, if any, is appended to
    /// the output. Returns whether the following buffered lines are still to be
    /// read, which stops once the server says the answer is done.
    pub fn record_chunk(&mut self, content: Option<&str>, done: Option<bool>) -> (keep_reading:
        bool)
        ensures
            final(self)@.buffer == old(self)@.buffer,
            final(self)@.output == match content {
                Some(c) => old(self)@.output + c@,
                None => old(self)@.output,
            },
            keep_reading == (done != Some(true)),
    {
        if let Some(c) = content {
            self.output.append(c);
        }
        match done {
            Some(true) => false,
            _ => true,
        }
    }

    /// What is left in the buffer once the stream has ended, trimmed, unless it
    /// is blank.
    pub fn tail(&self) -> (r: Option<String>)
        ensures
            trimmed(self@.buffer).len() > 0 ==> r is Some && r->0@ == trimmed(self@.buffer),
            trimmed(self@.buffer).len() == 0 ==> r is None,
    {
        let t = trim_ws(self.buffer.as_str());
        if t.as_bytes().len() > 0 {
            Some(t.to_owned())
        } else {
            None
        }
    }

    /// The answer text gathered so far.
    pub fn output(&self) -> (r: &str)
        ensures
            r@ == self@.output,
    {
        self.output.as_str()
    }
}

} // verus!
