//! A connection as the server sees it: who is logged in on it, which team,
//! channel or thread its commands refer to, and its input and output bytes.
use vstd::prelude::*;
use crate::models::first_index;
use crate::text::string_from_utf8;

verus! {

broadcast use {vstd::string::group_string_axioms, vstd::slice::group_slice_axioms};

/// What the commands of a connection refer to, as set by `/use`.
pub enum UseContext {
    Global,
    Team(String),
    Channel(String, String),
    Thread(String, String, String),
}

pub enum UseContextView {
    Global,
    Team(Seq<char>),
    Channel(Seq<char>, Seq<char>),
    Thread(Seq<char>, Seq<char>, Seq<char>),
}

impl View for UseContext {
    type V = UseContextView;

    open spec fn view(&self) -> UseContextView {
        match self {
            UseContext::Global => UseContextView::Global,
            UseContext::Team(t) => UseContextView::Team(t@),
            UseContext::Channel(t, c) => UseContextView::Channel(t@, c@),
            UseContext::Thread(t, c, h) => UseContextView::Thread(t@, c@, h@),
        }
    }
}

impl UseContext {
    /// A copy of this context.
    pub fn duplicate(&self) -> (r: UseContext)
        ensures
            r@ == self@,
    {
        match self {
            UseContext::Global => UseContext::Global,
            UseContext::Team(t) => UseContext::Team(t.clone()),
            UseContext::Channel(t, c) => UseContext::Channel(t.clone(), c.clone()),
            UseContext::Thread(t, c, h) => UseContext::Thread(t.clone(), c.clone(), h.clone()),
        }
    }
}

/// One connection to the server.
pub struct Client {
    pub uuid: Option<String>,
    pub use_context: UseContext,
    pub read_buffer: Vec<u8>,
    pub write_buffer: Vec<u8>,
}

pub struct ClientView {
    pub uuid: Option<Seq<char>>,
    pub use_context: UseContextView,
    pub read_buffer: Seq<u8>,
    pub write_buffer: Seq<u8>,
}

impl View for Client {
    type V = ClientView;

    open spec fn view(&self) -> ClientView {
        ClientView {
            uuid: crate::command::opt_view(self.uuid),
            use_context: self.use_context@,
            read_buffer: self.read_buffer@,
            write_buffer: self.write_buffer@,
        }
    }
}

/// The bytes sent for the message `msg`: its UTF-8 encoding and a newline.
pub open spec fn line_bytes(msg: Seq<char>) -> Seq<u8> {
    vstd::utf8::encode_utf8(msg).push(10u8)
}

/// `c` with `msg` queued for sending.
pub open spec fn queue(c: ClientView, msg: Seq<char>) -> ClientView {
    ClientView { write_buffer: c.write_buffer + line_bytes(msg), ..c }
}

pub open spec fn is_newline() -> spec_fn(u8) -> bool {
    |b: u8| b == 10u8
}

/// The command line at the front of the input bytes `b`, and the bytes left
/// after it: `None` when no newline has arrived yet. The line is `Some` text
/// when its bytes are valid UTF-8 and `None` otherwise.
pub open spec fn split_line(b: Seq<u8>) -> Option<(Option<Seq<char>>, Seq<u8>)> {
    match first_index(b, is_newline()) {
        None => None,
        Some(pos) => {
            let line = b.take(pos);
            Some(
                (
                    if vstd::utf8::valid_utf8(line) {
                        Some(vstd::utf8::decode_utf8(line))
                    } else {
                        None
                    },
                    b.skip(pos + 1),
                ),
            )
        },
    }
}

/// A connection with nobody logged in, in the global context, with empty buffers.
pub open spec fn fresh_client() -> ClientView {
    ClientView {
        uuid: None,
        use_context: UseContextView::Global,
        read_buffer: seq![],
        write_buffer: seq![],
    }
}

impl Client {
    /// A connection with nobody logged in, in the global context, with empty buffers.
    pub fn new() -> (c: Client)
        ensures
            c@ == fresh_client(),
    {
        let c = Client {
            uuid: None,
            use_context: UseContext::Global,
            read_buffer: Vec::new(),
            write_buffer: Vec::new(),
        };
        assert(c@.read_buffer =~= Seq::<u8>::empty());
        assert(c@.write_buffer =~= Seq::<u8>::empty());
        c
    }

    /// Takes the first complete line (up to a newline) out of the input bytes
    /// and returns it without the newline, or `None` when no newline has
    /// arrived or the line is not valid UTF-8 (the line is dropped then).
    pub fn extract_command(&mut self) -> (r: Option<String>)
        ensures
            match split_line(old(self)@.read_buffer) {
                None => r is None && final(self)@ == old(self)@,
                Some((line, rest)) => crate::command::opt_view(r) == line && final(self)@ == (
                ClientView { read_buffer: rest, ..old(self)@ }),
            },
    {
        let ghost b = self.read_buffer@;
        let mut pos: usize = 0;
        while pos < self.read_buffer.len() && self.read_buffer[pos] != 10u8
            invariant
                pos <= self.read_buffer@.len(),
                b == self.read_buffer@,
                forall|j: int| 0 <= j < pos ==> !is_newline()(b[j]),
            decreases self.read_buffer@.len() - pos,
        {
            pos += 1;
        }
        if pos >= self.read_buffer.len() {
            proof {
                crate::models::lemma_first_index_none(b, is_newline());
            }
            return None;
        }
        proof {
            crate::models::lemma_first_index_at(b, is_newline(), pos as int);
        }
        let mut line: Vec<u8> = Vec::new();
        let mut rest: Vec<u8> = Vec::new();
        let mut i: usize = 0;
        while i < self.read_buffer.len()
            invariant
                pos < self.read_buffer@.len(),
                i <= self.read_buffer@.len(),
                b == self.read_buffer@,
                line@ == b.take(if i <= pos { i as int } else { pos as int }),
                rest@ == (if i <= pos + 1 { Seq::<u8>::empty() } else { b.subrange(
                    pos + 1,
                    i as int,
                ) }),
            decreases self.read_buffer@.len() - i,
        {
            if i < pos {
                line.push(self.read_buffer[i]);
                assert(line@ =~= b.take(i + 1));
            } else if i > pos {
                rest.push(self.read_buffer[i]);
                assert(rest@ =~= b.subrange(pos + 1, i + 1));
            }
            i += 1;
        }
        assert(rest@ =~= b.skip(pos + 1));
        self.read_buffer = rest;
        string_from_utf8(line)
    }

    /// Queues `message` and a newline for sending.
    pub fn queue_message(&mut self, message: &str)
        ensures
            final(self)@ == queue(old(self)@, message@),
    {
        let bytes = message.as_bytes();
        let mut i: usize = 0;
        let ghost w = self.write_buffer@;
        while i < bytes.len()
            invariant
                i <= bytes@.len(),
                bytes@ == vstd::utf8::encode_utf8(message@),
                self.write_buffer@ == w + bytes@.take(i as int),
                self.uuid == old(self).uuid,
                self.use_context == old(self).use_context,
                self.read_buffer == old(self).read_buffer,
                w == old(self).write_buffer@,
            decreases bytes@.len() - i,
        {
            self.write_buffer.push(bytes[i]);
            assert(self.write_buffer@ =~= w + bytes@.take(i + 1));
            i += 1;
        }
        self.write_buffer.push(10u8);
        assert(bytes@.take(i as int) =~= bytes@);
        assert(self.write_buffer@ =~= w + line_bytes(message@));
    }
}

proof fn lemma_scalar_no_newline(c: char)
    requires
        c != '\n',
    ensures
        !vstd::utf8::encode_scalar(c as u32).contains(10u8),
{
    let v = c as u32;
    vstd::utf8::char_is_scalar(c);
    assert(forall|x: u8| #![trigger (0xc0u8 | x)] (0xc0u8 | x) != 10u8) by (bit_vector);
    assert(forall|x: u8| #![trigger (0xe0u8 | x)] (0xe0u8 | x) != 10u8) by (bit_vector);
    assert(forall|x: u8| #![trigger (0xf0u8 | x)] (0xf0u8 | x) != 10u8) by (bit_vector);
    assert(forall|x: u8| #![trigger (0x80u8 | x)] (0x80u8 | x) != 10u8) by (bit_vector);
    assert(v <= 0x7f ==> ((v & 0x7f) as u8 == 10u8 ==> v == 10)) by (bit_vector);
    assert(c == '\n' <==> v == 10);
    let e = vstd::utf8::encode_scalar(v);
    if e.contains(10u8) {
        let k = choose|k: int| 0 <= k < e.len() && e[k] == 10u8;
        assert(false);
    }
}

proof fn lemma_encode_no_newline(m: Seq<char>)
    requires
        !m.contains('\n'),
    ensures
        !vstd::utf8::encode_utf8(m).contains(10u8),
    decreases m.len(),
{
    if m.len() > 0 {
        assert(m[0] != '\n') by {
            if m[0] == '\n' {
                assert(m.contains('\n'));
            }
        }
        assert(!m.drop_first().contains('\n')) by {
            if m.drop_first().contains('\n') {
                let k = choose|k: int| 0 <= k < m.drop_first().len() && m.drop_first()[k] == '\n';
                assert(m[k + 1] == '\n');
            }
        }
        lemma_scalar_no_newline(m[0]);
        lemma_encode_no_newline(m.drop_first());
        let a = vstd::utf8::encode_scalar(m[0] as u32);
        let b = vstd::utf8::encode_utf8(m.drop_first());
        assert(vstd::utf8::encode_utf8(m) == a + b);
        if (a + b).contains(10u8) {
            let k = choose|k: int| 0 <= k < (a + b).len() && (a + b)[k] == 10u8;
            if k < a.len() {
                assert(a[k] == 10u8);
            } else {
                assert(b[k - a.len()] == 10u8);
            }
        }
    }
}

/// A message without a newline, queued for sending, is read back whole at
/// the other end, and whatever followed it is left for the next read.
pub proof fn law_sent_line_is_received(m: Seq<char>, rest: Seq<u8>)
    requires
        !m.contains('\n'),
    ensures
        split_line(line_bytes(m) + rest) == Some((Some(m), rest)),
{
    broadcast use vstd::utf8::group_utf8_lib;

    let e = vstd::utf8::encode_utf8(m);
    let b = line_bytes(m) + rest;
    lemma_encode_no_newline(m);
    assert forall|j: int| 0 <= j < e.len() implies !is_newline()(b[j]) by {
        assert(b[j] == e[j]);
        if b[j] == 10u8 {
            assert(e.contains(10u8));
        }
    }
    assert(b[e.len() as int] == 10u8);
    crate::models::lemma_first_index_at(b, is_newline(), e.len() as int);
    assert(b.take(e.len() as int) =~= e);
    assert(b.skip((e.len() + 1) as int) =~= rest);
}

/// A line queued on an empty connection and read at the other end, with any
/// bytes after it, comes out whole, and the bytes after it are left.
pub proof fn law_queued_line_is_extracted(d: ClientView, m: Seq<char>, rest: Seq<u8>)
    requires
        d.write_buffer.len() == 0,
        !m.contains('\n'),
    ensures
        split_line(queue(d, m).write_buffer + rest) == Some((Some(m), rest)),
{
    assert(queue(d, m).write_buffer =~= line_bytes(m));
    law_sent_line_is_received(m, rest);
}

/// Without a newline there is no line to take and the bytes stay; when the
/// bytes before the first newline are not UTF-8, no line is given but those
/// bytes and the newline are taken out.
pub proof fn law_extract_without_a_line(b: Seq<u8>)
    ensures
        (forall|j: int| 0 <= j < b.len() ==> b[j] != 10u8) ==> split_line(b) is None,
        match first_index(b, is_newline()) {
            Some(pos) => !vstd::utf8::valid_utf8(b.take(pos)) ==> split_line(b) == Some(
                (None::<Seq<char>>, b.skip(pos + 1)),
            ),
            None => split_line(b) is None,
        },
{
    crate::models::lemma_first_index(b, is_newline());
    if let Some(pos) = first_index(b, is_newline()) {
        assert(b[pos] == 10u8);
    }
}

} // verus!
