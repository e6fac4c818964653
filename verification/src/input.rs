//! Keyboard input: the bounded buffer of decoded keys that the serial
//! interrupt fills, and the line editor that turns keys into a line.
use vstd::prelude::*;
use vstd::string::StringExecFns;
use crossbeam_queue::ArrayQueue;
use crate::path::push_char;

verus! {

/// How many keys the input buffer holds.
pub const BUFFER_SIZE: usize = 128;

/// A decoded key: a character, or a key that stands for none.
#[derive(Clone, Copy, Debug, PartialEq, Eq, Structural)]
pub enum Key {
    Unicode(char),
    RawKey,
}

#[verifier::external_type_specification]
#[verifier::external_body]
#[verifier::reject_recursive_types(T)]
pub struct ExArrayQueue<T>(ArrayQueue<T>);

/// The keys held by a queue, oldest first.
pub uninterp spec fn key_queue_items(q: ArrayQueue<Key>) -> Seq<Key>;

/// The capacity a queue was made with.
pub uninterp spec fn key_queue_capacity(q: ArrayQueue<Key>) -> nat;

/// `ArrayQueue::new`: an empty queue of capacity `cap` (it panics on a zero
/// capacity and on one too large for its index arithmetic).
#[verifier::external_body]
fn key_queue_new(cap: usize) -> (q: ArrayQueue<Key>)
    requires
        0 < cap,
        cap as int <= 0x7FFF_FFFF_FFFF_FFFE,
    ensures
        key_queue_items(q) == Seq::<Key>::empty(),
        key_queue_capacity(q) == cap,
{
    ArrayQueue::new(cap)
}

/// `ArrayQueue::push`, with the queue held exclusively: the key goes to the
/// back when the queue is not full, else it is handed back.
#[verifier::external_body]
fn key_queue_push(q: &mut ArrayQueue<Key>, k: Key) -> (r: Result<(), Key>)
    ensures
        key_queue_capacity(*final(q)) == key_queue_capacity(*old(q)),
        key_queue_items(*old(q)).len() < key_queue_capacity(*old(q)) ==> r is Ok
            && key_queue_items(*final(q)) == key_queue_items(*old(q)).push(k),
        key_queue_items(*old(q)).len() >= key_queue_capacity(*old(q)) ==> (r matches Err(e) && e
            == k) && key_queue_items(*final(q)) == key_queue_items(*old(q)),
{
    q.push(k)
}

/// `ArrayQueue::pop`, with the queue held exclusively: the oldest key, or
/// `None` when the queue is empty.
#[verifier::external_body]
fn key_queue_pop(q: &mut ArrayQueue<Key>) -> (r: Option<Key>)
    ensures
        key_queue_capacity(*final(q)) == key_queue_capacity(*old(q)),
        key_queue_items(*old(q)).len() == 0 ==> r is None && key_queue_items(*final(q))
            == key_queue_items(*old(q)),
        key_queue_items(*old(q)).len() > 0 ==> r == Some(key_queue_items(*old(q))[0])
            && key_queue_items(*final(q)) == key_queue_items(*old(q)).drop_first(),
{
    q.pop()
}

/// The buffer of keys typed and not read yet.
pub struct InputBuffer {
    queue: ArrayQueue<Key>,
}

impl View for InputBuffer {
    type V = Seq<Key>;

    closed spec fn view(&self) -> Seq<Key> {
        key_queue_items(self.queue)
    }
}

impl InputBuffer {
    /// It holds at most `BUFFER_SIZE` keys.
    pub closed spec fn wf(&self) -> bool {
        &&& key_queue_capacity(self.queue) == BUFFER_SIZE
        &&& key_queue_items(self.queue).len() <= BUFFER_SIZE
    }

    /// An empty buffer.
    pub fn new() -> (b: Self)
        ensures
            b.wf(),
            b@ == Seq::<Key>::empty(),
    {
        InputBuffer { queue: key_queue_new(BUFFER_SIZE) }
    }

    /// Adds a typed key at the back; a key typed while the buffer is full is
    /// dropped, and `false` tells so.
    pub fn push_key(&mut self, key: Key) -> (stored: bool)
        requires
            old(self).wf(),
        ensures
            final(self).wf(),
            stored == (old(self)@.len() < BUFFER_SIZE),
            stored ==> final(self)@ == old(self)@.push(key),
            !stored ==> final(self)@ == old(self)@,
    {
        let r = key_queue_push(&mut self.queue, key);
        r.is_ok()
    }

    /// The oldest key not read yet, if any.
    pub fn try_pop_key(&mut self) -> (r: Option<Key>)
        requires
            old(self).wf(),
        ensures
            final(self).wf(),
            old(self)@.len() == 0 ==> r is None && final(self)@ == old(self)@,
            old(self)@.len() > 0 ==> r == Some(old(self)@[0]) && final(self)@ == old(self)@.drop_first(),
    {
        key_queue_pop(&mut self.queue)
    }
}

/// What the terminal is sent when a character is rubbed out.
pub open spec fn rub_out() -> Seq<char> {
    seq!['\x08', ' ', '\x08']
}

/// One key of line editing: the line afterwards, whether the line is
/// finished, and what is echoed to the terminal.
pub open spec fn edit_spec(line: Seq<char>, key: Key) -> (Seq<char>, bool, Seq<char>) {
    match key {
        Key::Unicode(c) => {
            if c == '\n' || c == '\r' {
                (line, true, seq!['\n'])
            } else if c == '\x08' || c == '\x7f' {
                if line.len() > 0 {
                    (line.drop_last(), false, rub_out())
                } else {
                    (line, false, Seq::empty())
                }
            } else {
                (line.push(c), false, seq![c])
            }
        },
        Key::RawKey => (line, false, Seq::empty()),
    }
}

/// `String::pop`: takes off the last character.
#[verifier::external_body]
fn pop_char(s: &mut String) -> (r: Option<char>)
    ensures
        old(s)@.len() == 0 ==> r is None && final(s)@ == old(s)@,
        old(s)@.len() > 0 ==> r == Some(old(s)@.last()) && final(s)@ == old(s)@.drop_last(),
{
    s.pop()
}

/// Feeds one key to the line being typed: returns whether the line is
/// finished and what to echo (see `edit_spec`).
pub fn edit_line(line: &mut String, key: Key) -> (r: (bool, String))
    ensures
        (final(line)@, r.0, r.1@) == edit_spec(old(line)@, key),
{
    match key {
        Key::Unicode(c) => {
            if c == '\n' || c == '\r' {
                let mut echo = String::new();
                push_char(&mut echo, '\n');
                (true, echo)
            } else if c == '\x08' || c == '\x7f' {
                let mut echo = String::new();
                if line.as_str().unicode_len() != 0 {
                    push_char(&mut echo, '\x08');
                    push_char(&mut echo, ' ');
                    push_char(&mut echo, '\x08');
                    pop_char(line);
                    assert(echo@ =~= rub_out());
                }
                (false, echo)
            } else {
                let mut echo = String::new();
                push_char(&mut echo, c);
                push_char(line, c);
                (false, echo)
            }
        },
        Key::RawKey => (false, String::new()),
    }
}

/// A character typed and then rubbed out leaves the line as it was.
pub proof fn law_rub_out_undoes_typing(line: Seq<char>, c: char)
    requires
        c != '\n' && c != '\r' && c != '\x08' && c != '\x7f',
    ensures
        edit_spec(edit_spec(line, Key::Unicode(c)).0, Key::Unicode('\x7f')).0 == line,
        edit_spec(edit_spec(line, Key::Unicode(c)).0, Key::Unicode('\x08')).0 == line,
{
    assert(line.push(c).drop_last() =~= line);
}

/// The Enter key, whether the keyboard decodes it as a line feed or as a
/// carriage return, finishes the line: the line typed so far is kept as it
/// is, and a line feed is echoed.
pub proof fn law_enter_finishes_line(line: Seq<char>)
    ensures
        edit_spec(line, Key::Unicode('\n')).0 == line,
        edit_spec(line, Key::Unicode('\n')).1,
        edit_spec(line, Key::Unicode('\n')).2 == seq!['\n'],
        edit_spec(line, Key::Unicode('\r')).0 == line,
        edit_spec(line, Key::Unicode('\r')).1,
        edit_spec(line, Key::Unicode('\r')).2 == seq!['\n'],
{
}

/// Only the Enter key finishes a line: any other key leaves it open.
pub proof fn law_only_enter_finishes_line(line: Seq<char>, key: Key)
    requires
        key != Key::Unicode('\n'),
        key != Key::Unicode('\r'),
    ensures
        !edit_spec(line, key).1,
{
}

/// Any other character is typed: it is added at the end of the line and
/// echoed, and the line stays open.
pub proof fn law_typing_appends(line: Seq<char>, c: char)
    requires
        c != '\n' && c != '\r' && c != '\x08' && c != '\x7f',
    ensures
        edit_spec(line, Key::Unicode(c)).0 == line.push(c),
        !edit_spec(line, Key::Unicode(c)).1,
        edit_spec(line, Key::Unicode(c)).2 == seq![c],
{
}

} // verus!
