//! Sockets for tests: what they give is set up in advance, and what they get is recorded.

use vstd::prelude::*;

use crate::connection::credentials::PassedCredentials;
use crate::connection::socket::ReadResult;

verus! {

/// What a list of byte strings says.
pub open spec fn bytes_view(messages: Seq<Vec<u8>>) -> Seq<Seq<u8>> {
    Seq::new(messages.len(), |i: int| messages[i]@)
}

/// What a list of lists of file descriptors says.
pub open spec fn fds_view<F>(fds: Seq<Vec<F>>) -> Seq<Seq<F>> {
    Seq::new(fds.len(), |i: int| fds[i]@)
}

/// A socket that gives messages, with file descriptors `F`.
///
/// Each message is given by itself, however large the buffer of the reader is.
#[derive(Debug)]
pub struct MockSocket<F> {
    messages: Vec<Vec<u8>>,
    fds: Vec<Vec<F>>,
}

/// The messages that responses become: a null byte behind each, and one more behind the last.
pub open spec fn framed(responses: Seq<&str>) -> Seq<Seq<u8>> {
    Seq::new(
        responses.len(),
        |i: int|
            {
                let message = vstd::utf8::encode_utf8(responses[i]@).push(0);
                if i == responses.len() - 1 {
                    message.push(0)
                } else {
                    message
                }
            },
    )
}

impl<F> MockSocket<F> {
    /// The messages.
    pub closed spec fn messages(self) -> Seq<Seq<u8>> {
        bytes_view(self.messages@)
    }

    /// The file descriptors that come with each message.
    pub closed spec fn fds(self) -> Seq<Seq<F>> {
        fds_view(self.fds@)
    }

    /// No message is empty.
    pub open spec fn wf(self) -> bool {
        forall|i: int| 0 <= i < self.messages().len() ==> (#[trigger] self.messages()[i]).len() > 0
    }

    #[verifier::type_invariant]
    spec fn inv(self) -> bool {
        self.wf()
    }

    /// A socket that gives responses, the file descriptors of each with it.
    pub fn new(responses: &[&str], fds: Vec<Vec<F>>) -> (r: Self)
        ensures
            r.wf(),
            r.messages() == framed(responses@),
            r.fds() == fds_view(fds@),
    {
        let mut messages: Vec<Vec<u8>> = Vec::new();
        let n: usize = responses.len();
        let mut i: usize = 0;
        while i < n
            invariant
                i <= n == responses@.len(),
                messages@.len() == i,
                forall|k: int| 0 <= k < i ==> (#[trigger] messages@[k])@ == framed(responses@)[k],
            decreases n - i,
        {
            let mut message: Vec<u8> = Vec::new();
            message.extend_from_slice(responses[i].as_bytes());
            assert(message@ =~= vstd::utf8::encode_utf8(responses@[i as int]@));
            message.push(0);
            if i == n - 1 {
                message.push(0);
            }
            messages.push(message);
            i += 1;
        }
        assert(bytes_view(messages@) =~= framed(responses@));
        assert forall|k: int| 0 <= k < messages@.len() implies (#[trigger] bytes_view(
            messages@,
        )[k]).len() > 0 by {
            assert(bytes_view(messages@)[k] == framed(responses@)[k]);
        }
        MockSocket { messages, fds }
    }

    /// A socket that gives responses without file descriptors.
    pub fn with_responses(responses: &[&str]) -> (r: Self)
        ensures
            r.wf(),
            r.messages() == framed(responses@),
            r.fds() == Seq::<Seq<F>>::empty(),
    {
        let r = MockSocket::new(responses, Vec::new());
        assert(r.fds() =~= Seq::<Seq<F>>::empty());
        r
    }

    /// The half that reads and the half that writes.
    pub fn split(self) -> (r: (MockReadHalf<F>, MockWriteHalf<F>))
        ensures
            r.0.wf(),
            r.0.messages() == self.messages(),
            r.0.fds() == self.fds(),
            r.0.index() == 0,
            r.0.position() == 0,
            r.1.is_fresh(),
    {
        proof {
            use_type_invariant(&self);
            assert(self.messages().len() > 0 ==> self.messages()[0].len() > 0);
        }
        let read = MockReadHalf {
            messages: self.messages,
            msg_index: 0,
            pos_in_msg: 0,
            fds: self.fds,
        };
        (read, MockWriteHalf::new())
    }
}

/// The half of a socket that reads.
#[derive(Debug)]
pub struct MockReadHalf<F> {
    messages: Vec<Vec<u8>>,
    msg_index: usize,
    pos_in_msg: usize,
    fds: Vec<Vec<F>>,
}

/// The smaller of two numbers.
pub open spec fn smaller(a: int, b: int) -> int {
    if a <= b {
        a
    } else {
        b
    }
}

impl<F> MockReadHalf<F> {
    /// The messages.
    pub closed spec fn messages(self) -> Seq<Seq<u8>> {
        bytes_view(self.messages@)
    }

    /// The file descriptors that come with each message and have not been given.
    pub closed spec fn fds(self) -> Seq<Seq<F>> {
        fds_view(self.fds@)
    }

    /// How many messages have been given whole.
    pub closed spec fn index(self) -> nat {
        self.msg_index as nat
    }

    /// How many bytes of the message behind those have been given.
    pub closed spec fn position(self) -> nat {
        self.pos_in_msg as nat
    }

    /// No message is empty, and of the one that has been given in part something is left.
    pub open spec fn wf(self) -> bool {
        &&& self.index() <= self.messages().len()
        &&& self.index() < self.messages().len() ==> self.position()
            < self.messages()[self.index() as int].len()
        &&& self.index() == self.messages().len() ==> self.position() == 0
        &&& forall|i: int|
            0 <= i < self.messages().len() ==> (#[trigger] self.messages()[i]).len() > 0
    }

    #[verifier::type_invariant]
    spec fn inv(self) -> bool {
        self.wf()
    }

    /// What a read into a buffer of `room` bytes gives: what is left of the message, as far as it
    /// fits.
    pub open spec fn chunk(self, room: nat) -> Seq<u8> {
        if self.index() >= self.messages().len() {
            seq![]
        } else {
            let rest = self.messages()[self.index() as int].skip(self.position() as int);
            rest.take(smaller(rest.len() as int, room as int))
        }
    }

    /// Whether a read into a buffer of `room` bytes gives the rest of a message.
    pub open spec fn read_ends_message(self, room: nat) -> bool {
        self.index() < self.messages().len() && self.position() + self.chunk(
            room,
        ).len() >= self.messages()[self.index() as int].len()
    }

    /// The file descriptors that come with the rest of the message.
    pub open spec fn next_fds(self) -> Seq<F> {
        if self.index() < self.fds().len() {
            self.fds()[self.index() as int]
        } else {
            seq![]
        }
    }

    /// The file descriptors that a read into a buffer of `room` bytes gives.
    pub open spec fn given_fds(self, room: nat) -> Seq<F> {
        if self.read_ends_message(room) {
            self.next_fds()
        } else {
            seq![]
        }
    }

    /// Whether a read into a buffer of `room` bytes leaves the half as `next`.
    pub open spec fn reads_to(self, room: nat, next: Self) -> bool {
        &&& next.messages() == self.messages()
        &&& if self.read_ends_message(room) {
            &&& next.index() == self.index() + 1
            &&& next.position() == 0
            &&& next.fds() == if self.index() < self.fds().len() {
                self.fds().update(self.index() as int, seq![])
            } else {
                self.fds()
            }
        } else {
            &&& next.index() == self.index()
            &&& next.position() == self.position() + self.chunk(room).len()
            &&& next.fds() == self.fds()
        }
    }

    /// All that has not been read.
    pub open spec fn unread(self) -> Seq<u8> {
        if self.index() >= self.messages().len() {
            seq![]
        } else {
            self.messages()[self.index() as int].skip(self.position() as int) + joined(
                self.messages(),
                self.index() as int + 1,
            )
        }
    }

    /// All file descriptors that have not been given with their messages.
    pub open spec fn unread_fds(self) -> Seq<F> {
        fds_from(self.fds(), self.index() as int, self.messages().len() as int)
    }

    /// How many messages are left.
    pub fn messages_remaining(&self) -> (r: usize)
        ensures
            r == if self.index() <= self.messages().len() {
                self.messages().len() - self.index()
            } else {
                0
            },
    {
        self.messages.len().saturating_sub(self.msg_index)
    }

    /// How many lists of file descriptors have been given.
    pub fn fds_consumed(&self) -> (r: usize)
        ensures
            r == self.index(),
    {
        self.msg_index
    }

    /// Reads from the message that is next, into the start of the buffer. Its file descriptors come
    /// with the last of its bytes. Behind the last message a read gives nothing.
    pub fn read(&mut self, buf: &mut [u8]) -> (r: ReadResult<F>)
        ensures
            final(self).wf(),
            old(self).reads_to(old(buf)@.len(), *final(self)),
            ({
                let chunk = old(self).chunk(old(buf)@.len());
                &&& r.count() == chunk.len()
                &&& final(buf)@ == chunk + old(buf)@.skip(chunk.len() as int)
            }),
            r.descriptors() == old(self).given_fds(old(buf)@.len()),
    {
        proof {
            use_type_invariant(&*self);
        }
        if self.msg_index >= self.messages.len() {
            assert(buf@ =~= self.chunk(buf@.len()) + buf@.skip(0));
            return ReadResult::new(0);
        }
        let ghost before = *self;
        let ghost start = buf@;
        let index: usize = self.msg_index;
        let pos: usize = self.pos_in_msg;
        assert(self.messages()[index as int] == self.messages@[index as int]@);
        let len: usize = self.messages[index].len();
        let remaining: usize = len - pos;
        let room: usize = buf.len();
        let to_read: usize = if remaining <= room {
            remaining
        } else {
            room
        };
        let ghost message = self.messages@[index as int]@;
        let mut i: usize = 0;
        while i < to_read
            invariant
                i <= to_read <= room,
                buf@.len() == room == start.len(),
                pos + to_read <= len == message.len(),
                index < self.messages@.len(),
                message == self.messages@[index as int]@,
                *self == before,
                forall|k: int| 0 <= k < i ==> buf@[k] == message[pos + k],
                forall|k: int| i <= k < room ==> buf@[k] == start[k],
            decreases to_read - i,
        {
            buf[i] = self.messages[index][pos + i];
            i += 1;
        }
        assert(before.chunk(room as nat) =~= message.subrange(pos as int, pos + to_read));
        assert(buf@ =~= message.subrange(pos as int, pos + to_read) + start.skip(to_read as int));
        if pos + to_read >= len {
            let mut fds: Vec<F> = Vec::new();
            if index < self.fds.len() {
                std::mem::swap(&mut fds, &mut self.fds[index]);
            }
            self.pos_in_msg = 0;
            self.msg_index = index + 1;
            proof {
                assert(self.messages() == before.messages());
                if before.index() < before.fds().len() {
                    assert(self.fds() =~= before.fds().update(index as int, seq![]));
                }
            }
            ReadResult::new(to_read).set_fds(fds)
        } else {
            self.pos_in_msg = pos + to_read;
            ReadResult::new(to_read)
        }
    }
}

/// The messages from `i` on, one behind the other.
pub open spec fn joined(messages: Seq<Seq<u8>>, i: int) -> Seq<u8>
    decreases messages.len() - i,
{
    if 0 <= i < messages.len() {
        messages[i] + joined(messages, i + 1)
    } else {
        seq![]
    }
}

/// The file descriptors of the messages from `i` up to, not including, `n`, one behind the other.
pub open spec fn fds_from<F>(fds: Seq<Seq<F>>, i: int, n: int) -> Seq<F>
    decreases n - i,
{
    if 0 <= i < n {
        if i < fds.len() {
            fds[i] + fds_from(fds, i + 1, n)
        } else {
            fds_from(fds, i + 1, n)
        }
    } else {
        seq![]
    }
}

/// Whether a half goes through these states, one read after the other, with buffers of these sizes.
pub open spec fn are_reads<F>(states: Seq<MockReadHalf<F>>, rooms: Seq<nat>) -> bool {
    &&& states.len() == rooms.len() + 1
    &&& states[0].wf()
    &&& forall|k: int|
        0 <= k < rooms.len() ==> (#[trigger] states[k]).reads_to(rooms[k], states[k + 1])
}

/// What the first `n` reads give.
pub open spec fn read_bytes<F>(states: Seq<MockReadHalf<F>>, rooms: Seq<nat>, n: nat) -> Seq<u8>
    decreases n,
{
    if n == 0 {
        seq![]
    } else {
        read_bytes(states, rooms, (n - 1) as nat) + states[n - 1].chunk(rooms[n - 1])
    }
}

/// The file descriptors that the first `n` reads give.
pub open spec fn read_fds<F>(states: Seq<MockReadHalf<F>>, rooms: Seq<nat>, n: nat) -> Seq<F>
    decreases n,
{
    if n == 0 {
        seq![]
    } else {
        read_fds(states, rooms, (n - 1) as nat) + states[n - 1].given_fds(rooms[n - 1])
    }
}

proof fn lemma_fds_of_others<F>(fds: Seq<Seq<F>>, k: int, i: int, n: int)
    requires
        0 <= k < fds.len(),
        k < i,
    ensures
        fds_from(fds.update(k, seq![]), i, n) == fds_from(fds, i, n),
    decreases n - i,
{
    if i < n {
        lemma_fds_of_others(fds, k, i + 1, n);
    }
}

/// What a read gives and what is then left is what was left before it.
proof fn lemma_read<F>(before: MockReadHalf<F>, room: nat, after: MockReadHalf<F>)
    requires
        before.wf(),
        before.reads_to(room, after),
    ensures
        after.wf(),
        before.unread() == before.chunk(room) + after.unread(),
        before.unread_fds() == before.given_fds(room) + after.unread_fds(),
{
    let messages = before.messages();
    let n = messages.len() as int;
    if before.index() < messages.len() {
        let message = messages[before.index() as int];
        let rest = message.skip(before.position() as int);
        let chunk = before.chunk(room);
        if before.read_ends_message(room) {
            assert(chunk =~= rest);
            if after.index() < messages.len() {
                assert(messages[after.index() as int].len() > 0);
                assert(messages[after.index() as int].skip(0) =~= messages[after.index() as int]);
                assert(after.unread() =~= joined(messages, before.index() as int + 1));
            }
            if before.index() < before.fds().len() {
                let i = before.index() as int;
                lemma_fds_of_others(before.fds(), i, i + 1, n);
            }
        } else {
            assert(rest =~= chunk + message.skip(after.position() as int));
            assert(before.unread() =~= chunk + after.unread());
        }
    }
    assert(before.unread() =~= before.chunk(room) + after.unread());
    assert(before.unread_fds() =~= before.given_fds(room) + after.unread_fds());
}

proof fn lemma_reads<F>(states: Seq<MockReadHalf<F>>, rooms: Seq<nat>, n: nat)
    requires
        are_reads(states, rooms),
        n <= rooms.len(),
    ensures
        states[n as int].wf(),
        states[0].unread() == read_bytes(states, rooms, n) + states[n as int].unread(),
        states[0].unread_fds() == read_fds(states, rooms, n) + states[n as int].unread_fds(),
    decreases n,
{
    if n == 0 {
        assert(states[0].unread() =~= read_bytes(states, rooms, n) + states[0].unread());
        assert(states[0].unread_fds() =~= read_fds(states, rooms, n) + states[0].unread_fds());
    } else {
        let k = n - 1;
        lemma_reads(states, rooms, k as nat);
        assert(states[k].reads_to(rooms[k], states[k + 1]));
        lemma_read(states[k], rooms[k], states[n as int]);
        assert(states[0].unread() =~= read_bytes(states, rooms, n) + states[n as int].unread());
        assert(states[0].unread_fds() =~= read_fds(states, rooms, n)
            + states[n as int].unread_fds());
    }
}

/// Reads give the messages one behind the other, and their file descriptors in the same order: what
/// any series of reads gives and what is then left is what was left before it. Once a read into a
/// buffer with room gives nothing, all has been given.
pub proof fn law_reads_give_the_messages_in_order<F>(
    states: Seq<MockReadHalf<F>>,
    rooms: Seq<nat>,
)
    requires
        are_reads(states, rooms),
    ensures
        states[0].unread() == read_bytes(states, rooms, rooms.len()) + states.last().unread(),
        states[0].unread_fds() == read_fds(states, rooms, rooms.len())
            + states.last().unread_fds(),
        rooms.len() > 0 && rooms.last() > 0 && states[rooms.len() - 1].chunk(
            rooms.last(),
        ).len() == 0 ==> {
            &&& states[0].unread() == read_bytes(states, rooms, rooms.len())
            &&& states[0].unread_fds() == read_fds(states, rooms, rooms.len())
        },
{
    let n = rooms.len();
    lemma_reads(states, rooms, n);
    if n > 0 && rooms.last() > 0 && states[n - 1].chunk(rooms.last()).len() == 0 {
        lemma_reads(states, rooms, (n - 1) as nat);
        let last = states[n - 1];
        assert(last.reads_to(rooms[n - 1], states[n as int]));
        assert(last.index() >= last.messages().len());
        assert(states[n as int].unread() =~= seq![]);
        assert(states[n as int].unread_fds() =~= seq![]);
        assert(states[0].unread() =~= read_bytes(states, rooms, n));
        assert(states[0].unread_fds() =~= read_fds(states, rooms, n));
    }
}

/// A read gives something as long as something is left and the buffer has room.
pub proof fn law_reads_give_something<F>(half: MockReadHalf<F>, room: nat)
    requires
        half.wf(),
        room > 0,
        half.unread().len() > 0,
    ensures
        half.chunk(room).len() > 0,
{
}

/// The half of a socket that writes, and records what is written.
#[derive(Debug)]
pub struct MockWriteHalf<F> {
    written: Vec<u8>,
    fds_written: Vec<Vec<F>>,
    credentials_written: Vec<PassedCredentials>,
}

impl<F> MockWriteHalf<F> {
    /// The bytes that were written.
    pub closed spec fn data(self) -> Seq<u8> {
        self.written@
    }

    /// The file descriptors of each write that had any.
    pub closed spec fn fds(self) -> Seq<Seq<F>> {
        fds_view(self.fds_written@)
    }

    /// The credentials of each write that had any.
    pub closed spec fn credentials(self) -> Seq<PassedCredentials> {
        self.credentials_written@
    }

    /// Nothing was written.
    pub open spec fn is_fresh(self) -> bool {
        self.data().len() == 0 && self.fds().len() == 0 && self.credentials().len() == 0
    }

    /// A half that nothing was written to.
    pub fn new() -> (r: Self)
        ensures
            r.is_fresh(),
    {
        MockWriteHalf {
            written: Vec::new(),
            fds_written: Vec::new(),
            credentials_written: Vec::new(),
        }
    }

    /// The bytes that were written.
    pub fn written_data(&self) -> (r: &[u8])
        ensures
            r@ == self.data(),
    {
        self.written.as_slice()
    }

    /// The file descriptors of each write that had any.
    pub fn fds_written(&self) -> (r: &Vec<Vec<F>>)
        ensures
            fds_view(r@) == self.fds(),
    {
        &self.fds_written
    }

    /// How many writes had file descriptors.
    pub fn fd_write_count(&self) -> (r: usize)
        ensures
            r == self.fds().len(),
    {
        self.fds_written.len()
    }

    /// The credentials of each write that had any.
    pub fn credentials_written(&self) -> (r: &[PassedCredentials])
        ensures
            r@ == self.credentials(),
    {
        self.credentials_written.as_slice()
    }

    /// Records a write. `duplicated` are the duplicates of its file descriptors; where they could not
    /// be made, only the bytes are recorded.
    pub fn write<E>(
        &mut self,
        buf: &[u8],
        duplicated: Result<Vec<F>, E>,
        credentials: Option<&PassedCredentials>,
    ) -> (r: Result<(), E>)
        ensures
            final(self).data() == old(self).data() + buf@,
            match duplicated {
                Err(e) => {
                    &&& r matches Err(err) && err == e
                    &&& final(self).fds() == old(self).fds()
                    &&& final(self).credentials() == old(self).credentials()
                },
                Ok(fds) => {
                    &&& r is Ok
                    &&& final(self).fds() == if fds@.len() == 0 {
                        old(self).fds()
                    } else {
                        old(self).fds().push(fds@)
                    }
                    &&& match credentials {
                        None => final(self).credentials() == old(self).credentials(),
                        Some(c) => {
                            &&& final(self).credentials().len() == old(self).credentials().len() + 1
                            &&& final(self).credentials().drop_last() == old(self).credentials()
                            &&& final(self).credentials().last().uid() == c.uid()
                            &&& final(self).credentials().last().gid() == c.gid()
                            &&& final(self).credentials().last().pid() == c.pid()
                        },
                    }
                },
            },
    {
        self.written.extend_from_slice(buf);
        assert(self.data() =~= old(self).data() + buf@);
        match duplicated {
            Err(e) => Err(e),
            Ok(fds) => {
                if fds.len() > 0 {
                    let ghost before = self.fds_written@;
                    self.fds_written.push(fds);
                    assert(fds_view(self.fds_written@) =~= fds_view(before).push(fds@));
                }
                if let Some(c) = credentials {
                    let ghost before = self.credentials_written@;
                    self.credentials_written.push(
                        PassedCredentials::new(
                            c.unix_user_id(),
                            c.unix_primary_group_id(),
                            c.process_id(),
                        ),
                    );
                    assert(self.credentials_written@.drop_last() =~= before);
                }
                Ok(())
            },
        }
    }
}

impl<F> Default for MockWriteHalf<F> {
    fn default() -> (r: Self)
        ensures
            r.is_fresh(),
    {
        MockWriteHalf::new()
    }
}

/// A half that writes, and takes only writes of one size.
#[derive(Debug)]
pub struct TestWriteHalf {
    expected_len: usize,
    expected_fd_count: Option<usize>,
    write_count: usize,
}

impl TestWriteHalf {
    /// The size of writes.
    pub closed spec fn len(self) -> usize {
        self.expected_len
    }

    /// The number of file descriptors of each write.
    pub closed spec fn fd_count(self) -> usize {
        match self.expected_fd_count {
            Some(n) => n,
            None => 0,
        }
    }

    /// How many writes there were.
    pub closed spec fn writes(self) -> usize {
        self.write_count
    }

    /// A half that takes writes of one size, without file descriptors.
    pub fn new(expected_len: usize) -> (r: Self)
        ensures
            r.len() == expected_len,
            r.fd_count() == 0,
            r.writes() == 0,
    {
        TestWriteHalf { expected_len, expected_fd_count: None, write_count: 0 }
    }

    /// A half that takes writes of one size, with some number of file descriptors.
    pub fn new_with_fds(expected_len: usize, expected_fd_count: usize) -> (r: Self)
        ensures
            r.len() == expected_len,
            r.fd_count() == expected_fd_count,
            r.writes() == 0,
    {
        TestWriteHalf {
            expected_len,
            expected_fd_count: Some(expected_fd_count),
            write_count: 0,
        }
    }

    /// How many writes there were.
    pub fn write_count(&self) -> (r: usize)
        ensures
            r == self.writes(),
    {
        self.write_count
    }

    /// Whether a write has the size and the number of file descriptors that are taken.
    pub fn accepts(&self, len: usize, fd_count: usize) -> (r: bool)
        ensures
            r == (len == self.len() && fd_count == self.fd_count()),
    {
        let expected: usize = match self.expected_fd_count {
            Some(n) => n,
            None => 0,
        };
        len == self.expected_len && fd_count == expected
    }

    /// Counts a write, which must be as it is expected. Code that is not verified is stopped by a panic
    /// where it is not.
    pub fn write(&mut self, buf: &[u8], fd_count: usize)
        requires
            buf@.len() == old(self).len(),
            fd_count == old(self).fd_count(),
            old(self).writes() < usize::MAX,
        ensures
            final(self).len() == old(self).len(),
            final(self).fd_count() == old(self).fd_count(),
            final(self).writes() == old(self).writes() + 1,
    {
        let taken: Option<()> = if self.accepts(buf.len(), fd_count) {
            Some(())
        } else {
            None
        };
        taken.expect("assertion `left == right` failed: write is not as it is expected");
        self.write_count += 1;
    }
}

/// A half that writes, and counts the writes.
#[derive(Debug)]
pub struct CountingWriteHalf {
    count: usize,
}

impl CountingWriteHalf {
    /// How many writes there were.
    pub closed spec fn writes(self) -> usize {
        self.count
    }

    /// A half that nothing was written to.
    pub fn new() -> (r: Self)
        ensures
            r.writes() == 0,
    {
        CountingWriteHalf { count: 0 }
    }

    /// How many writes there were.
    pub fn count(&self) -> (r: usize)
        ensures
            r == self.writes(),
    {
        self.count
    }

    /// Counts a write.
    pub fn write(&mut self)
        requires
            old(self).writes() < usize::MAX,
        ensures
            final(self).writes() == old(self).writes() + 1,
    {
        self.count += 1;
    }
}

impl Default for CountingWriteHalf {
    fn default() -> (r: Self)
        ensures
            r.writes() == 0,
    {
        CountingWriteHalf::new()
    }
}

/// Every response is sent as its text and a zero behind it, and behind the last stands one more.
pub proof fn law_responses_end_in_zeros(responses: Seq<&str>, k: int)
    requires
        0 <= k < responses.len(),
    ensures
        framed(responses).len() == responses.len(),
        k < responses.len() - 1 ==> framed(responses)[k] == vstd::utf8::encode_utf8(responses[k]@)
            + seq![0u8],
        k == responses.len() - 1 ==> framed(responses)[k] == vstd::utf8::encode_utf8(responses[k]@)
            + seq![0u8, 0u8],
{
    let text = vstd::utf8::encode_utf8(responses[k]@);
    assert(text.push(0) =~= text + seq![0u8]);
    assert(text.push(0).push(0) =~= text + seq![0u8, 0u8]);
}

/// A read takes no more than there is room for, and it either fills the room or ends the message that
/// it is in. Only the read that ends a message gives file descriptors, and those are the ones that
/// belong to that message.
pub proof fn law_reads_fill_the_room<F>(half: MockReadHalf<F>, room: nat, next: MockReadHalf<F>)
    requires
        half.wf(),
        half.index() < half.messages().len(),
        half.reads_to(room, next),
    ensures
        half.chunk(room).len() <= room,
        half.chunk(room).len() == room || next.index() == half.index() + 1,
        next.index() == half.index() || next.index() == half.index() + 1,
        half.chunk(room) == half.messages()[half.index() as int].subrange(
            half.position() as int,
            (half.position() + half.chunk(room).len()) as int,
        ),
        next.index() == half.index() ==> half.given_fds(room).len() == 0 && next.position()
            == half.position() + half.chunk(room).len(),
        next.index() == half.index() + 1 ==> next.position() == 0 && half.position() + half.chunk(
            room,
        ).len() == half.messages()[half.index() as int].len(),
        next.index() == half.index() + 1 && half.index() < half.fds().len() ==> half.given_fds(room)
            == half.fds()[half.index() as int] && next.fds()[half.index() as int].len() == 0,
        next.index() == half.index() + 1 && half.index() >= half.fds().len() ==> half.given_fds(
            room,
        ).len() == 0,
        next.fds().len() == half.fds().len(),
        forall|k: int|
            0 <= k < half.fds().len() && k != half.index() ==> #[trigger] next.fds()[k]
                == half.fds()[k],
{
    let rest = half.messages()[half.index() as int].skip(half.position() as int);
    assert(half.chunk(room) =~= half.messages()[half.index() as int].subrange(
        half.position() as int,
        (half.position() + half.chunk(room).len()) as int,
    ));
}

} // verus!
