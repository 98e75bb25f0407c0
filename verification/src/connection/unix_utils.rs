//! The decisions behind reading from, writing to and asking about Unix sockets.

use vstd::prelude::*;

use rustix::fd::OwnedFd;
use rustix::process::{Gid, Pid};

use super::credentials::{Credentials, PassedCredentials};
use super::socket::ReadResult;

verus! {

/// How many file descriptors can be sent in one message.
pub const MAX_FDS: usize = 1024;

/// How many supplementary groups are asked for at first.
pub const INITIAL_NUMBER_SUPPLEMENTARY_GROUPS: usize = 128;

/// How many bytes a group takes in the answer of the kernel.
pub const GROUP_BYTES: u32 = 4;

/// What goes wrong on this side of a socket.
#[derive(Debug, Clone, Copy, PartialEq, Eq, Structural)]
pub enum Problem {
    /// The file descriptors do not fit into one message.
    TooManyFds,
    /// The peer has no process ID.
    InvalidPid,
    /// The platform does not know the credentials of peers.
    Unsupported,
}

impl Problem {
    /// What is said of the problem.
    pub open spec fn text(self) -> Seq<char> {
        match self {
            Problem::TooManyFds => "too many file descriptors to send"@,
            Problem::InvalidPid => "invalid peer PID"@,
            Problem::Unsupported => "peer credentials not supported on this platform"@,
        }
    }

    /// What is said of the problem.
    pub fn message(self) -> (r: &'static str)
        ensures
            r@ == self.text(),
    {
        match self {
            Problem::TooManyFds => "too many file descriptors to send",
            Problem::InvalidPid => "invalid peer PID",
            Problem::Unsupported => "peer credentials not supported on this platform",
        }
    }
}

/// What came beside the bytes of a message.
pub enum Ancillary<F> {
    /// File descriptors.
    Rights(Vec<F>),
    /// Anything else.
    Other,
}

/// All file descriptors that came beside a message, in order.
pub open spec fn all_rights<F>(messages: Seq<Ancillary<F>>) -> Seq<F>
    decreases messages.len(),
{
    if messages.len() == 0 {
        seq![]
    } else {
        match messages.last() {
            Ancillary::Rights(fds) => all_rights(messages.drop_last()) + fds@,
            Ancillary::Other => all_rights(messages.drop_last()),
        }
    }
}

/// What a message gave: its bytes, and the file descriptors that came beside them.
pub fn received<F>(bytes: usize, messages: Vec<Ancillary<F>>) -> (r: ReadResult<F>)
    ensures
        r.count() == bytes,
        r.descriptors() == all_rights(messages@),
{
    let mut fds: Vec<F> = Vec::new();
    let ghost all = messages@;
    assert(fds@ =~= all_rights(all.take(0)));
    for message in it: messages
        invariant
            it.seq() == messages@,
            all == messages@,
            fds@ == all_rights(all.take(it.index() as int)),
    {
        proof {
            assert(all.take(it.index() + 1).drop_last() =~= all.take(it.index() as int));
            assert(all.take(it.index() + 1).last() == message);
        }
        if let Ancillary::Rights(rights) = message {
            let mut rights = rights;
            fds.append(&mut rights);
        }
    }
    assert(all.take(all.len() as int) =~= all);
    ReadResult::new(bytes).set_fds(fds)
}

/// Whether a message with some file descriptors may be sent, `pushed` being whether they went into
/// the buffer that is sent beside it. A message without file descriptors always may.
pub fn check_fds(fd_count: usize, pushed: bool) -> (r: Result<(), Problem>)
    ensures
        r == if fd_count > 0 && !pushed {
            Err::<(), Problem>(Problem::TooManyFds)
        } else {
            Ok::<(), Problem>(())
        },
{
    if fd_count > 0 && !pushed {
        Err(Problem::TooManyFds)
    } else {
        Ok(())
    }
}

/// The process ID of a peer, where it has one.
pub fn require_pid(pid: Option<Pid>) -> (r: Result<Pid, Problem>)
    ensures
        match pid {
            Some(pid) => r == Ok::<Pid, Problem>(pid),
            None => r == Err::<Pid, Problem>(Problem::InvalidPid),
        },
{
    match pid {
        Some(pid) => Ok(pid),
        None => Err(Problem::InvalidPid),
    }
}

/// What follows from an answer about supplementary groups.
#[derive(Debug, Clone, Copy, PartialEq, Eq, Structural)]
pub enum GroupsStep {
    /// The answer is an error.
    Fail,
    /// The buffer holds this many groups.
    Done(usize),
    /// The buffer must have room for this many groups.
    Grow(usize),
}

/// What follows from an answer about supplementary groups that says it takes `bytes`, with a buffer
/// of `capacity` groups. An error counts as one unless it says that the buffer is too small.
pub open spec fn groups_step_of(
    failed: Option<Option<i32>>,
    too_small: i32,
    bytes: u32,
    capacity: usize,
) -> GroupsStep {
    if failed is Some && failed->0 != Some(too_small) {
        GroupsStep::Fail
    } else if bytes / GROUP_BYTES <= capacity {
        GroupsStep::Done((bytes / GROUP_BYTES) as usize)
    } else {
        GroupsStep::Grow((bytes / GROUP_BYTES) as usize)
    }
}

/// What follows from an answer about supplementary groups: `failed` is the code of the error, where
/// there is one, and `too_small` the code that says that the buffer is too small.
pub fn groups_step(
    failed: Option<Option<i32>>,
    too_small: i32,
    bytes: u32,
    capacity: usize,
) -> (r: GroupsStep)
    ensures
        r == groups_step_of(failed, too_small, bytes, capacity),
{
    if let Some(code) = failed {
        match code {
            Some(code) => {
                if code != too_small {
                    return GroupsStep::Fail;
                }
            },
            None => {
                return GroupsStep::Fail;
            },
        }
    }
    let count: usize = (bytes / GROUP_BYTES) as usize;
    if count <= capacity {
        GroupsStep::Done(count)
    } else {
        GroupsStep::Grow(count)
    }
}

/// A buffer that was grown as asked is large enough for the same answer.
pub proof fn law_grown_buffer_is_large_enough(
    failed: Option<Option<i32>>,
    too_small: i32,
    bytes: u32,
    capacity: usize,
    grown: usize,
)
    requires
        groups_step_of(failed, too_small, bytes, capacity) matches GroupsStep::Grow(n) && grown >= n,
    ensures
        groups_step_of(failed, too_small, bytes, grown) == GroupsStep::Done(
            groups_step_of(failed, too_small, bytes, capacity)->Grow_0,
        ),
        grown > capacity,
{
}

/// A failed question to the kernel.
pub struct Failure<E> {
    /// The error.
    pub error: E,
    /// Its code.
    pub code: Option<i32>,
}

/// A question to the kernel.
#[derive(Debug, Clone, Copy, PartialEq, Eq, Structural)]
pub enum Question {
    /// The user, the primary group and the process of the peer.
    Peer,
    /// The supplementary groups of the peer, with a buffer for at least this many.
    Groups(usize),
    /// A descriptor of the process of the peer.
    ProcessFd,
    /// A descriptor of the process, by its ID.
    OpenProcess,
}

/// An answer of the kernel.
pub enum Answer<E> {
    /// To [`Question::Peer`].
    Peer(Result<PassedCredentials, E>),
    /// To [`Question::Groups`].
    Groups {
        /// What went wrong, if anything.
        failed: Option<Failure<E>>,
        /// How many bytes the groups take.
        bytes: u32,
        /// The whole buffer.
        buffer: Vec<Gid>,
    },
    /// To [`Question::ProcessFd`].
    ProcessFd(Result<OwnedFd, Failure<E>>),
    /// To [`Question::OpenProcess`].
    OpenProcess(Result<OwnedFd, E>),
}

/// How far asking for the credentials of a peer has come.
pub enum Phase {
    /// Nothing is known.
    Peer,
    /// The groups are being asked for.
    Groups(PassedCredentials),
    /// The descriptor of the process is being asked for.
    ProcessFd(PassedCredentials, Vec<Gid>),
    /// The descriptor of the process is being opened.
    OpenProcess(PassedCredentials, Vec<Gid>),
}

/// The codes of errors that do not end the asking.
#[derive(Debug, Clone, Copy)]
pub struct Codes {
    /// The buffer is too small.
    pub too_small: i32,
    /// The kernel does not know the question.
    pub not_supported: i32,
}

/// What follows from an answer.
pub enum Next<E> {
    /// The next question.
    Ask(Phase, Question),
    /// The credentials.
    Done(Credentials),
    /// An error.
    Fail(E),
}

/// Whether an answer is to the question that was asked.
pub open spec fn answers<E>(phase: Phase, answer: Answer<E>) -> bool {
    match phase {
        Phase::Peer => answer is Peer,
        Phase::Groups(_) => answer is Groups,
        Phase::ProcessFd(_, _) => answer is ProcessFd,
        Phase::OpenProcess(_, _) => answer is OpenProcess,
    }
}

/// The code of a failure.
pub open spec fn code_of<E>(failed: Option<Failure<E>>) -> Option<Option<i32>> {
    match failed {
        Some(f) => Some(f.code),
        None => None,
    }
}

/// Whether credentials are those of a peer, with these groups and this descriptor.
pub open spec fn are_credentials(
    c: Credentials,
    peer: PassedCredentials,
    groups: Seq<Gid>,
    fd: OwnedFd,
) -> bool {
    c.passed() == peer && c.groups() == Some(groups) && c.fd() == Some(fd)
}

/// What follows from an answer: the peer is asked for first, then its groups, as often as the buffer
/// is too small, then the descriptor of its process, which is opened where the kernel cannot give
/// it. Any other error ends the asking.
pub open spec fn follows<E>(phase: Phase, answer: Answer<E>, codes: Codes, next: Next<E>) -> bool {
    match (phase, answer) {
        (Phase::Peer, Answer::Peer(Ok(peer))) => {
            next matches Next::Ask(p, q) && p == Phase::Groups(peer) && q == Question::Groups(
                INITIAL_NUMBER_SUPPLEMENTARY_GROUPS,
            )
        },
        (Phase::Peer, Answer::Peer(Err(e))) => next == Next::<E>::Fail(e),
        (Phase::Groups(peer), Answer::Groups { failed, bytes, buffer }) => {
            match groups_step_of(code_of(failed), codes.too_small, bytes, buffer@.len() as usize) {
                GroupsStep::Fail => next == Next::<E>::Fail((failed->0).error),
                GroupsStep::Grow(n) => next == Next::<E>::Ask(
                    Phase::Groups(peer),
                    Question::Groups(n),
                ),
                GroupsStep::Done(n) => next matches Next::Ask(Phase::ProcessFd(p, groups), q) && p
                    == peer && groups@ == buffer@.take(n as int) && q == Question::ProcessFd,
            }
        },
        (Phase::ProcessFd(peer, groups), Answer::ProcessFd(Ok(fd))) => {
            next matches Next::Done(c) && are_credentials(c, peer, groups@, fd)
        },
        (Phase::ProcessFd(peer, groups), Answer::ProcessFd(Err(f))) => {
            if f.code == Some(codes.not_supported) {
                next == Next::<E>::Ask(Phase::OpenProcess(peer, groups), Question::OpenProcess)
            } else {
                next == Next::<E>::Fail(f.error)
            }
        },
        (Phase::OpenProcess(peer, groups), Answer::OpenProcess(Ok(fd))) => {
            next matches Next::Done(c) && are_credentials(c, peer, groups@, fd)
        },
        (Phase::OpenProcess(_, _), Answer::OpenProcess(Err(e))) => next == Next::<E>::Fail(e),
        _ => false,
    }
}

/// The first question that is asked for the credentials of a peer.
pub fn get_peer_credentials() -> (r: (Phase, Question))
    ensures
        r == (Phase::Peer, Question::Peer),
{
    (Phase::Peer, Question::Peer)
}

impl Phase {
    /// What follows from an answer to the question that was asked.
    pub fn next<E>(self, answer: Answer<E>, codes: Codes) -> (r: Next<E>)
        requires
            answers(self, answer),
        ensures
            follows(self, answer, codes, r),
    {
        match (self, answer) {
            (Phase::Peer, Answer::Peer(Ok(peer))) => Next::Ask(
                Phase::Groups(peer),
                Question::Groups(INITIAL_NUMBER_SUPPLEMENTARY_GROUPS),
            ),
            (Phase::Peer, Answer::Peer(Err(e))) => Next::Fail(e),
            (Phase::Groups(peer), Answer::Groups { failed, bytes, buffer }) => {
                let code = match &failed {
                    Some(f) => Some(f.code),
                    None => None,
                };
                match groups_step(code, codes.too_small, bytes, buffer.len()) {
                    GroupsStep::Fail => Next::Fail(failed.unwrap().error),
                    GroupsStep::Grow(n) => Next::Ask(Phase::Groups(peer), Question::Groups(n)),
                    GroupsStep::Done(n) => {
                        let mut groups = buffer;
                        groups.truncate(n);
                        assert(groups@ =~= buffer@.take(n as int));
                        Next::Ask(Phase::ProcessFd(peer, groups), Question::ProcessFd)
                    },
                }
            },
            (Phase::ProcessFd(peer, groups), Answer::ProcessFd(Ok(fd))) => Next::Done(
                Credentials::new(peer, Some(groups), Some(fd)),
            ),
            (Phase::ProcessFd(peer, groups), Answer::ProcessFd(Err(f))) => {
                let known = match f.code {
                    Some(code) => code == codes.not_supported,
                    None => false,
                };
                if known {
                    Next::Ask(Phase::OpenProcess(peer, groups), Question::OpenProcess)
                } else {
                    Next::Fail(f.error)
                }
            },
            (Phase::OpenProcess(peer, groups), Answer::OpenProcess(Ok(fd))) => Next::Done(
                Credentials::new(peer, Some(groups), Some(fd)),
            ),
            (Phase::OpenProcess(_, _), Answer::OpenProcess(Err(e))) => Next::Fail(e),
            (phase, _) => {
                assert(false);
                Next::Ask(phase, Question::Peer)
            },
        }
    }
}

/// The peer, where it is known.
pub open spec fn peer_of(phase: Phase) -> Option<PassedCredentials> {
    match phase {
        Phase::Peer => None,
        Phase::Groups(peer) => Some(peer),
        Phase::ProcessFd(peer, _) => Some(peer),
        Phase::OpenProcess(peer, _) => Some(peer),
    }
}

/// Whether a question is the one whose answer is waited for.
pub open spec fn is_asked(phase: Phase, question: Question) -> bool {
    match phase {
        Phase::Peer => question is Peer,
        Phase::Groups(_) => question is Groups,
        Phase::ProcessFd(_, _) => question is ProcessFd,
        Phase::OpenProcess(_, _) => question is OpenProcess,
    }
}

/// Once the peer is known it stays the same, and the credentials in the end are its own; and every
/// question is the one whose answer is then waited for.
pub proof fn law_peer_is_kept<E>(phase: Phase, answer: Answer<E>, codes: Codes, next: Next<E>)
    requires
        follows(phase, answer, codes, next),
    ensures
        next matches Next::Ask(p, q) ==> is_asked(p, q) && peer_of(p) is Some && (peer_of(
            phase,
        ) is Some ==> peer_of(p) == peer_of(phase)),
        next matches Next::Done(c) ==> peer_of(phase) == Some(c.passed()),
{
}

/// Whether a phase and an answer lead to a question in the next phase.
pub open spec fn goes_on<E>(phase: Phase, answer: Answer<E>, codes: Codes, next: Phase) -> bool {
    exists|question: Question|
        #[trigger] follows(phase, answer, codes, Next::Ask(next, question))
}

/// Whether the asking goes through these phases, each following from the answer in the one in front
/// of it.
pub open spec fn are_phases<E>(phases: Seq<Phase>, given: Seq<Answer<E>>, codes: Codes) -> bool {
    &&& phases.len() == given.len() + 1
    &&& forall|k: int|
        0 <= k < given.len() ==> goes_on(phases[k], #[trigger] given[k], codes, phases[k + 1])
}

/// However often the kernel is asked, the peer stays the one that is known first.
pub proof fn law_peer_is_kept_throughout<E>(
    phases: Seq<Phase>,
    given: Seq<Answer<E>>,
    codes: Codes,
    i: int,
    j: int,
)
    requires
        are_phases(phases, given, codes),
        0 <= i <= j < phases.len(),
        peer_of(phases[i]) is Some,
    ensures
        peer_of(phases[j]) == peer_of(phases[i]),
    decreases j - i,
{
    if i < j {
        law_peer_is_kept_throughout(phases, given, codes, i, j - 1);
        let k = j - 1;
        assert(goes_on(phases[k], given[k], codes, phases[k + 1]));
        let question = choose|question: Question|
            #[trigger] follows(phases[k], given[k], codes, Next::Ask(phases[k + 1], question));
        law_peer_is_kept(phases[k], given[k], codes, Next::Ask(phases[k + 1], question));
    }
}

/// The groups that an answer about groups gives: as many of its buffer as its bytes are whole groups of
/// four.
pub open spec fn given_groups<E>(answer: Answer<E>) -> Seq<Gid> {
    answer->buffer@.take(answer->bytes as int / 4)
}

/// What is known in a phase is what the answers in front of it gave.
proof fn lemma_known<E>(phases: Seq<Phase>, given: Seq<Answer<E>>, codes: Codes, k: int)
    requires
        are_phases(phases, given, codes),
        phases[0] is Peer,
        0 <= k < phases.len(),
    ensures
        match phases[k] {
            Phase::Peer => k == 0,
            Phase::Groups(peer) => k >= 1 && given[0] == Answer::<E>::Peer(Ok(peer)),
            Phase::ProcessFd(peer, groups) => k >= 2 && given[0] == Answer::<E>::Peer(Ok(peer))
                && given[k - 1] is Groups && groups@ == given_groups(given[k - 1]),
            Phase::OpenProcess(peer, groups) => k >= 3 && given[0] == Answer::<E>::Peer(Ok(peer))
                && given[k - 2] is Groups && groups@ == given_groups(given[k - 2])
                && given[k - 1] is ProcessFd,
        },
    decreases k,
{
    if k > 0 {
        lemma_known(phases, given, codes, k - 1);
        assert(goes_on(phases[k - 1], given[k - 1], codes, phases[k]));
        let question = choose|question: Question|
            #[trigger] follows(phases[k - 1], given[k - 1], codes, Next::Ask(phases[k], question));
        assert(follows(phases[k - 1], given[k - 1], codes, Next::Ask(phases[k], question)));
    }
}

/// The credentials in the end are what the kernel gave: the user, the primary group and the process of
/// its first answer, the supplementary groups of its last answer about groups, and the descriptor of
/// its last answer, whichever way that was got.
pub proof fn law_credentials_are_what_the_kernel_gave<E>(
    phases: Seq<Phase>,
    given: Seq<Answer<E>>,
    codes: Codes,
    last: Answer<E>,
    c: Credentials,
) -> (g: int)
    requires
        are_phases(phases, given, codes),
        phases[0] is Peer,
        follows(phases.last(), last, codes, Next::Done(c)),
    ensures
        1 <= g < given.len(),
        given[0] == Answer::<E>::Peer(Ok(c.passed())),
        given[g] is Groups,
        forall|k: int| g < k < given.len() ==> !((#[trigger] given[k]) is Groups),
        c.groups() == Some(given_groups(given[g])),
        match last {
            Answer::ProcessFd(Ok(fd)) => c.fd() == Some(fd),
            Answer::OpenProcess(Ok(fd)) => c.fd() == Some(fd),
            _ => false,
        },
{
    let n = phases.len() - 1;
    lemma_known(phases, given, codes, n);
    if phases[n] is ProcessFd {
        n - 1
    } else {
        n - 2
    }
}

/// Whether an answer is an error that ends the asking: any is, but that a buffer is too small for the
/// groups, and that the kernel has no descriptors of peers.
pub open spec fn ends_with<E>(answer: Answer<E>, error: E, codes: Codes) -> bool {
    match answer {
        Answer::Peer(Err(e)) => e == error,
        Answer::Groups { failed: Some(f), .. } => f.error == error && f.code != Some(
            codes.too_small,
        ),
        Answer::ProcessFd(Err(f)) => f.error == error && f.code != Some(codes.not_supported),
        Answer::OpenProcess(Err(e)) => e == error,
        _ => false,
    }
}

/// The asking fails with exactly the errors that end it.
pub proof fn law_only_errors_end_the_asking<E>(
    phase: Phase,
    answer: Answer<E>,
    codes: Codes,
    error: E,
)
    requires
        answers(phase, answer),
    ensures
        follows(phase, answer, codes, Next::Fail(error)) <==> ends_with(answer, error, codes),
{
}

/// How far a phase is.
pub open spec fn rank(phase: Phase) -> int {
    match phase {
        Phase::Peer => 0,
        Phase::Groups(_) => 1,
        Phase::ProcessFd(_, _) => 2,
        Phase::OpenProcess(_, _) => 3,
    }
}

/// Every answer that does not end the asking brings it one phase further, or asks for the groups again
/// with room for all that the kernel says there are, which is more than there was; that happens exactly
/// where the buffer does not hold them all. The phase of opening a process is reached exactly where the
/// kernel has no descriptors of peers.
pub proof fn law_asking_gets_on<E>(
    phase: Phase,
    answer: Answer<E>,
    codes: Codes,
    next: Phase,
    question: Question,
)
    requires
        follows(phase, answer, codes, Next::Ask(next, question)),
    ensures
        rank(next) == rank(phase) + 1 || phase is Groups && next is Groups,
        is_asked(next, question),
        phase is Groups && next is Groups ==> {
            let room = question->Groups_0;
            &&& room * 4 <= answer->bytes < room * 4 + 4
            &&& room > answer->buffer@.len() as usize
        },
        phase is Groups ==> (next is Groups <==> answer->bytes as int / 4
            > answer->buffer@.len() as usize),
        next is OpenProcess <==> (answer matches Answer::ProcessFd(Err(f)) && f.code == Some(
            codes.not_supported,
        )),
        phase is Peer ==> question == Question::Groups(128),
{
}

/// What came beside a message, part by part, gives the file descriptors of each part in order: all of
/// a part that holds some, and none of any other.
pub proof fn law_rights_come_in_order<F>(first: Seq<Ancillary<F>>, second: Seq<Ancillary<F>>)
    ensures
        all_rights(first + second) == all_rights(first) + all_rights(second),
        first.len() == 1 ==> all_rights(first) == match first[0] {
            Ancillary::Rights(fds) => fds@,
            Ancillary::Other => Seq::<F>::empty(),
        },
    decreases second.len(),
{
    reveal_with_fuel(all_rights, 2);
    if first.len() == 1 {
        assert(first.drop_last() =~= seq![]);
        assert(all_rights(first.drop_last()) =~= seq![]);
        if let Ancillary::Rights(fds) = first[0] {
            assert(all_rights(first.drop_last()) + fds@ =~= fds@);
        }
    }
    if second.len() == 0 {
        assert(first + second =~= first);
        assert(all_rights(first) + all_rights(second) =~= all_rights(first));
    } else {
        law_rights_come_in_order(first, second.drop_last());
        assert((first + second).drop_last() =~= first + second.drop_last());
        assert((first + second).last() == second.last());
        if let Ancillary::Rights(fds) = second.last() {
            assert(all_rights(first) + all_rights(second.drop_last()) + fds@ =~= all_rights(first)
                + (all_rights(second.drop_last()) + fds@));
        }
    }
}

} // verus!
