//! The serial line: what it carries in which mode, and how a connection is noticed.
use vstd::prelude::*;
use vstd::slice::slice_subrange;
use vstd::utf8::is_ascii_chars;

use crate::bytes;
use crate::bytes::{CR, LF};

verus! {

/// The size of the pipe that commands take to the line.
pub const AT_TX_PIPE_SIZE: usize = 128;

/// The size of the buffer that a command is written in.
pub const AT_TX_BUF_SIZE: usize = 128;

/// The size of the buffer that answers and messages are read in.
pub const INGRESS_BUF_SIZE: usize = 128;

/// How many messages can wait for their readers.
pub const URC_CAPACITY: usize = 128;

/// How many readers of messages there can be.
pub const URC_SUBSCRIBERS: usize = 3;

/// The number that stands for the mode of commands.
pub const AT_MODE: u8 = 0;

/// The number that stands for the mode of the data stream.
pub const DATA_MODE: u8 = 1;

/// The input holds no whole line that tells of a connection.
#[derive(Clone, Copy, Debug, PartialEq, Eq, Structural)]
pub struct NoMatch;

/// Where the line that tells of a connection ends: the first line break of `s` is
/// followed by `CONNECT`, and then by the line break that ends the line.
pub open spec fn connect_end(s: Seq<u8>) -> Option<int> {
    match bytes::first_crlf(s) {
        Some(start) => {
            let line = s.skip(start + 2);
            match bytes::first_crlf(line) {
                Some(end) if bytes::ascii("CONNECT"@).is_prefix_of(line) => Some(
                    start + 2 + end + 2,
                ),
                _ => None,
            }
        },
        None => None,
    }
}

/// Finds the line that tells of a connection.
///
/// The result is the input up to the end of that line, and its length.
pub fn parse_connect_success(input: &[u8]) -> (r: Result<(&[u8], usize), NoMatch>)
    ensures
        match r {
            Ok((found, len)) => {
                &&& connect_end(input@) == Some(len as int)
                &&& len <= input@.len()
                &&& found@ == input@.take(len as int)
            },
            Err(NoMatch) => connect_end(input@) is None,
        },
{
    let start: usize = match bytes::find_crlf(input) {
        Some(i) => i,
        None => return Err(NoMatch),
    };
    proof {
        bytes::lemma_first_crlf(input@);
        reveal_strlit("CONNECT");
    }
    let total: usize = input.len();
    let line = slice_subrange(input, start + 2, total);
    assert(line@ =~= input@.skip(start + 2));
    if !bytes::starts_with(line, "CONNECT") {
        return Err(NoMatch);
    }
    let end: usize = match bytes::find_crlf(line) {
        Some(i) => i,
        None => return Err(NoMatch),
    };
    proof {
        bytes::lemma_first_crlf(line@);
    }
    let len: usize = start + 2 + end + 2;
    let found = slice_subrange(input, 0, len);
    assert(found@ =~= input@.take(len as int));
    Ok((found, len))
}

/// A connection that was noticed is noticed in the same way when more bytes follow.
pub proof fn law_connection_stays(s: Seq<u8>, more: Seq<u8>)
    requires
        connect_end(s) is Some,
    ensures
        connect_end(s + more) == connect_end(s),
{
    let start = bytes::first_crlf(s)->0;
    let line = s.skip(start + 2);
    let word = bytes::ascii("CONNECT"@);
    bytes::lemma_first_crlf(s);
    bytes::lemma_first_crlf_extends(s, more);
    bytes::lemma_first_crlf_extends(line, more);
    assert((s + more).skip(start + 2) =~= line + more);
    assert((line + more).subrange(0, word.len() as int) =~= line.subrange(0, word.len() as int));
}

/// A line of its own that starts with `CONNECT` is noticed, whatever stands on the
/// line before it, on the rest of it and behind it.
pub proof fn law_connection_is_noticed(before: Seq<u8>, text: Seq<u8>, rest: Seq<u8>)
    requires
        bytes::first_crlf(before) is None,
        bytes::first_crlf(text) is None,
    ensures
        ({
            let line = bytes::ascii("CONNECT"@) + text;
            connect_end(before + seq![CR, LF] + line + seq![CR, LF] + rest) == Some(
                (before.len() + 2 + line.len() + 2) as int,
            )
        }),
{
    reveal_strlit("CONNECT");
    let word = bytes::ascii("CONNECT"@);
    let line = word + text;
    let tail = line + seq![CR, LF] + rest;
    let s = before + seq![CR, LF] + line + seq![CR, LF] + rest;
    assert(s =~= before + seq![CR, LF] + tail);
    bytes::lemma_first_crlf_behind(before, tail);
    assert(s.skip(before.len() as int + 2) =~= tail);
    assert forall|j: int| !#[trigger] bytes::crlf_at(line, j) by {
        bytes::lemma_first_crlf(text);
        if bytes::crlf_at(line, j) {
            assert(word[6] == 'T' as u8);
            if j >= 7 {
                assert(bytes::crlf_at(text, j - 7));
            } else {
                assert(line[j] == word[j]);
                assert(word[j] == "CONNECT"@[j] as u8);
            }
        }
    }
    bytes::lemma_first_crlf(line);
    bytes::lemma_first_crlf_behind(line, rest);
    assert(tail.subrange(0, 7) =~= word);
}

/// What the line carries.
#[derive(Clone, Copy, Debug, PartialEq, Eq, Structural)]
pub enum Mode {
    /// Commands and the modem's answers and messages.
    AT,
    /// The data stream.
    Data,
}

impl Mode {
    /// The number that stands for the mode.
    pub open spec fn number(self) -> u8 {
        match self {
            Mode::AT => AT_MODE,
            Mode::Data => DATA_MODE,
        }
    }

    /// The number that stands for the mode.
    pub fn code(self) -> (r: u8)
        ensures
            r == self.number(),
    {
        match self {
            Mode::AT => AT_MODE,
            Mode::Data => DATA_MODE,
        }
    }

    /// The mode that `code` stands for: a number that stands for no mode is taken
    /// for that of commands.
    pub open spec fn numbered(code: u8) -> Mode {
        if code == Mode::Data.number() {
            Mode::Data
        } else {
            Mode::AT
        }
    }
}

/// The number of a mode stands for that mode.
pub proof fn law_mode_code_is_read_back(mode: Mode)
    ensures
        Mode::numbered(mode.number()) == mode,
{
}

/// The mode of the line, as the driver and both pumps see it.
#[derive(Clone, Copy, Debug, PartialEq, Eq, Structural)]
pub struct DataMode {
    /// The number that stands for the mode.
    pub code: u8,
}

impl DataMode {
    /// The mode at first: the line carries commands.
    pub open spec fn first() -> DataMode {
        DataMode { code: Mode::AT.number() }
    }

    /// The line carries the data stream.
    pub open spec fn is_data(self) -> bool {
        Mode::numbered(self.code) == Mode::Data
    }

    /// The mode when the data stream was let onto the line.
    pub open spec fn entered(self) -> DataMode {
        DataMode { code: Mode::Data.number() }
    }

    /// The mode after some uses.
    pub open spec fn used(self, uses: Seq<ModeUse>) -> DataMode
        decreases uses.len(),
    {
        if uses.len() == 0 {
            self
        } else {
            match uses.last() {
                ModeUse::Enter => self.used(uses.drop_last()).entered(),
                ModeUse::Ask => self.used(uses.drop_last()),
            }
        }
    }

    /// The mode at first.
    pub fn new_at() -> (r: DataMode)
        ensures
            r == DataMode::first(),
    {
        DataMode { code: Mode::AT.code() }
    }

    /// Lets the data stream onto the line.
    pub fn enter_data_mode(&mut self)
        ensures
            *final(self) == old(self).entered(),
    {
        self.code = Mode::Data.code();
    }

    /// Whether the line carries the data stream.
    pub fn is_data_mode(&self) -> (r: bool)
        ensures
            r == self.is_data(),
    {
        self.code == Mode::Data.code()
    }
}

/// A use of the mode.
pub ghost enum ModeUse {
    /// The data stream is let onto the line.
    Enter,
    /// It is asked what the line carries.
    Ask,
}

/// How often the data stream is let onto the line.
pub open spec fn entries(uses: Seq<ModeUse>) -> nat
    decreases uses.len(),
{
    if uses.len() == 0 {
        0
    } else {
        entries(uses.drop_last()) + (if uses.last() is Enter {
            1nat
        } else {
            0
        })
    }
}

/// The line carries commands until the data stream is let onto it for the first time, and
/// the data stream from then on, however often the mode is asked for or entered again.
pub proof fn law_mode_stays(uses: Seq<ModeUse>)
    ensures
        DataMode::first().used(uses).is_data() == (entries(uses) > 0),
        DataMode::first().used(uses).code == (if entries(uses) > 0 {
            Mode::Data.number()
        } else {
            Mode::AT.number()
        }),
    decreases uses.len(),
{
    if uses.len() > 0 {
        law_mode_stays(uses.drop_last());
    }
}

/// What was let onto the line early is on it later.
proof fn lemma_entries_grow(uses: Seq<ModeUse>, n: int)
    requires
        0 <= n <= uses.len(),
    ensures
        entries(uses.take(n)) <= entries(uses),
    decreases uses.len(),
{
    if n < uses.len() {
        lemma_entries_grow(uses.drop_last(), n);
        assert(uses.drop_last().take(n) =~= uses.take(n));
    } else {
        assert(uses.take(n) =~= uses);
    }
}

/// `codes` are what was seen of the mode at some moments of its uses, one after the
/// other: the mode starts with commands, and each moment is a number of uses.
pub open spec fn seen(codes: Seq<u8>, uses: Seq<ModeUse>, moments: Seq<int>) -> bool {
    &&& moments.len() == codes.len()
    &&& forall|i: int|
        0 <= i < moments.len() ==> 0 <= #[trigger] moments[i] <= uses.len() && codes[i]
            == DataMode::first().used(uses.take(moments[i])).code
    &&& forall|i: int, j: int|
        0 <= i <= j < moments.len() ==> #[trigger] moments[i] <= #[trigger] moments[j]
}

/// Whatever the uses, the mode is seen to change once at most: from commands to data.
pub proof fn law_mode_changes_once(codes: Seq<u8>, uses: Seq<ModeUse>, moments: Seq<int>)
    requires
        seen(codes, uses, moments),
    ensures
        forall|i: int, j: int|
            0 <= i <= j < codes.len() && Mode::numbered(#[trigger] codes[i]) == Mode::Data
                ==> Mode::numbered(#[trigger] codes[j]) == Mode::Data,
{
    assert forall|i: int, j: int|
        0 <= i <= j < codes.len() && Mode::numbered(#[trigger] codes[i])
            == Mode::Data implies Mode::numbered(#[trigger] codes[j]) == Mode::Data by {
        let early = uses.take(moments[i]);
        let late = uses.take(moments[j]);
        assert(moments[i] <= moments[j]);
        law_mode_stays(early);
        law_mode_stays(late);
        lemma_entries_grow(late, moments[i]);
        assert(late.take(moments[i]) =~= early);
    }
}

/// How many of the first codes are those of commands, where the mode changes once.
spec fn first_data(codes: Seq<u8>) -> int
    decreases codes.len(),
{
    if codes.len() == 0 {
        0
    } else if Mode::numbered(codes.last()) == Mode::Data {
        first_data(codes.drop_last())
    } else {
        codes.len() as int
    }
}

/// Where the mode changes once, it is that of commands before and that of data behind
/// that place.
proof fn lemma_first_data(codes: Seq<u8>)
    requires
        forall|i: int, j: int|
            0 <= i <= j < codes.len() && Mode::numbered(#[trigger] codes[i]) == Mode::Data
                ==> Mode::numbered(#[trigger] codes[j]) == Mode::Data,
    ensures
        0 <= first_data(codes) <= codes.len(),
        forall|i: int|
            0 <= i < first_data(codes) ==> Mode::numbered(#[trigger] codes[i]) == Mode::AT,
        forall|i: int|
            first_data(codes) <= i < codes.len() ==> Mode::numbered(#[trigger] codes[i])
                == Mode::Data,
    decreases codes.len(),
{
    if codes.len() > 0 {
        let before = codes.drop_last();
        assert(forall|i: int| 0 <= i < before.len() ==> #[trigger] before[i] == codes[i]);
        if Mode::numbered(codes.last()) == Mode::Data {
            lemma_first_data(before);
            assert forall|i: int| 0 <= i < first_data(codes) implies Mode::numbered(
                #[trigger] codes[i],
            ) == Mode::AT by {
                assert(Mode::numbered(before[i]) == Mode::AT);
            }
            assert forall|i: int| first_data(codes) <= i < codes.len() implies Mode::numbered(
                #[trigger] codes[i],
            ) == Mode::Data by {
                if i < before.len() {
                    assert(Mode::numbered(before[i]) == Mode::Data);
                }
            }
        } else {
            assert forall|i: int| 0 <= i < codes.len() implies Mode::numbered(
                #[trigger] codes[i],
            ) == Mode::AT by {
                assert(codes[codes.len() - 1] == codes.last());
            }
        }
    }
}

/// How a wait for outgoing bytes ended.
#[derive(Clone, Copy, Debug, PartialEq, Eq, Structural)]
pub enum TxEvent {
    /// So many bytes were read from a pipe.
    Dequeued(usize),
    /// The mode changed first.
    ModeChanged,
}

/// The bytes that go out to the line when a wait that filled `buf` has ended.
pub open spec fn sent(buf: Seq<u8>, event: TxEvent) -> Option<Seq<u8>> {
    match event {
        TxEvent::Dequeued(n) => Some(buf.take(n as int)),
        TxEvent::ModeChanged => None,
    }
}

/// Moves bytes from the users of the line to the line.
///
/// In each turn the pump looks at the mode, waits for bytes in the pipe of that mode
/// or for another mode, and writes the bytes that it got.
#[derive(Clone, Copy, Debug)]
pub struct TxPump;

impl TxPump {
    /// Starts a turn, in the given mode.
    pub fn run(mode: DataMode) -> (r: TxTurn)
        ensures
            r.source == Mode::numbered(mode.code),
    {
        if mode.is_data_mode() {
            TxTurn { source: Mode::Data }
        } else {
            TxTurn { source: Mode::AT }
        }
    }
}

/// A turn of the outgoing pump.
#[derive(Clone, Copy, Debug)]
pub struct TxTurn {
    /// The mode whose pipe is read.
    pub source: Mode,
}

impl TxTurn {
    /// The bytes of `buf` that the turn writes, if any, when the wait for them has ended.
    pub fn outgoing<'b>(self, buf: &'b [u8], event: TxEvent) -> (r: Option<&'b [u8]>)
        requires
            event matches TxEvent::Dequeued(n) ==> n <= buf@.len(),
        ensures
            match r {
                Some(chunk) => sent(buf@, event) == Some(chunk@),
                None => sent(buf@, event) is None,
            },
    {
        match event {
            TxEvent::Dequeued(n) => {
                let chunk = slice_subrange(buf, 0, n);
                assert(chunk@ =~= buf@.take(n as int));
                Some(chunk)
            },
            TxEvent::ModeChanged => None,
        }
    }
}

/// What happened in one turn of the outgoing pump: the mode's number when it started,
/// and how the wait ended.
pub ghost struct TxRound {
    pub code: u8,
    pub event: TxEvent,
}

/// The bytes on their way out.
pub ghost struct TxState {
    /// What the users of commands have written or will write, and was not read yet.
    pub at: Seq<u8>,
    /// The same of the users of the data stream.
    pub data: Seq<u8>,
    /// What was written to the line.
    pub line: Seq<u8>,
}

impl TxState {
    /// The bytes that wait in the pipe of a mode.
    pub open spec fn waiting(self, mode: Mode) -> Seq<u8> {
        match mode {
            Mode::AT => self.at,
            Mode::Data => self.data,
        }
    }

    /// No more bytes are read than there are.
    pub open spec fn can_turn(self, turn: TxRound) -> bool {
        turn.event matches TxEvent::Dequeued(n) ==> n <= self.waiting(
            Mode::numbered(turn.code),
        ).len()
    }

    /// The bytes after one turn: a read takes the first bytes of the pipe into the
    /// buffer, and the pump writes what it has to.
    pub open spec fn turned(self, turn: TxRound) -> TxState {
        let mode = Mode::numbered(turn.code);
        let taken: int = match turn.event {
            TxEvent::Dequeued(n) => n as int,
            TxEvent::ModeChanged => 0,
        };
        let rest = self.waiting(mode).skip(taken);
        let line = match sent(self.waiting(mode), turn.event) {
            Some(chunk) => self.line + chunk,
            None => self.line,
        };
        match mode {
            Mode::AT => TxState { at: rest, line, ..self },
            Mode::Data => TxState { data: rest, line, ..self },
        }
    }

    /// The bytes after some turns.
    pub open spec fn ran(self, turns: Seq<TxRound>) -> TxState
        decreases turns.len(),
    {
        if turns.len() == 0 {
            self
        } else {
            self.ran(turns.drop_last()).turned(turns.last())
        }
    }

    /// No turn reads more bytes than there are.
    pub open spec fn can_run(self, turns: Seq<TxRound>) -> bool
        decreases turns.len(),
    {
        turns.len() > 0 ==> self.can_run(turns.drop_last()) && self.ran(
            turns.drop_last(),
        ).can_turn(turns.last())
    }
}

/// Every turn starts in the given mode.
pub open spec fn tx_in_mode(turns: Seq<TxRound>, mode: Mode) -> bool {
    forall|i: int| 0 <= i < turns.len() ==> Mode::numbered(#[trigger] turns[i].code) == mode
}

/// While the mode stays, the pump writes the bytes of that mode's pipe, all of them,
/// in their order, each once, and leaves the other pipe alone.
pub proof fn law_tx_keeps_bytes(st: TxState, turns: Seq<TxRound>, mode: Mode)
    requires
        st.can_run(turns),
        tx_in_mode(turns, mode),
    ensures
        ({
            let end = st.ran(turns);
            &&& end.line + end.waiting(mode) == st.line + st.waiting(mode)
            &&& st.line.len() <= end.line.len()
            &&& mode == Mode::AT ==> end.data == st.data
            &&& mode == Mode::Data ==> end.at == st.at
        }),
    decreases turns.len(),
{
    if turns.len() > 0 {
        let mid = st.ran(turns.drop_last());
        assert forall|i: int| 0 <= i < turns.len() - 1 implies Mode::numbered(
            #[trigger] turns.drop_last()[i].code,
        ) == mode by {
            assert(turns.drop_last()[i] == turns[i]);
        }
        law_tx_keeps_bytes(st, turns.drop_last(), mode);
        assert(Mode::numbered(turns[turns.len() - 1].code) == mode);
        let end = mid.turned(turns.last());
        assert(end.line + end.waiting(mode) =~= mid.line + mid.waiting(mode));
    }
}

/// Turns that follow each other are turns.
proof fn lemma_tx_ran_on(st: TxState, first: Seq<TxRound>, then: Seq<TxRound>)
    ensures
        st.ran(first + then) == st.ran(first).ran(then),
        st.can_run(first + then) == (st.can_run(first) && st.ran(first).can_run(then)),
    decreases then.len(),
{
    if then.len() == 0 {
        assert(first + then =~= first);
    } else {
        lemma_tx_ran_on(st, first, then.drop_last());
        assert((first + then).drop_last() =~= first + then.drop_last());
    }
}

/// When the mode changes from commands to data, the line carries a start of what was
/// written as commands, and then a start of what was written as data; what was not
/// sent still waits.
pub proof fn law_tx_commands_before_data(st: TxState, first: Seq<TxRound>, then: Seq<TxRound>)
    requires
        st.can_run(first + then),
        tx_in_mode(first, Mode::AT),
        tx_in_mode(then, Mode::Data),
    ensures
        ({
            let end = st.ran(first + then);
            let commands = st.at.len() - end.at.len();
            let data = st.data.len() - end.data.len();
            &&& 0 <= commands
            &&& 0 <= data
            &&& end.line == st.line + st.at.take(commands) + st.data.take(data)
            &&& end.at == st.at.skip(commands)
            &&& end.data == st.data.skip(data)
        }),
{
    let mid = st.ran(first);
    let end = mid.ran(then);
    lemma_tx_ran_on(st, first, then);
    law_tx_keeps_bytes(st, first, Mode::AT);
    law_tx_keeps_bytes(mid, then, Mode::Data);
    let commands = st.at.len() - end.at.len();
    let data = st.data.len() - end.data.len();
    let whole = st.line + st.at;
    assert(whole.len() == mid.line.len() + mid.at.len());
    assert(whole.skip(mid.line.len() as int) =~= mid.at);
    assert(whole.take(mid.line.len() as int) =~= mid.line);
    assert(st.at.skip(commands) =~= whole.skip(mid.line.len() as int));
    assert(whole.take(mid.line.len() as int) =~= st.line + st.at.take(commands));
    let later = mid.line + mid.data;
    assert(later.len() == end.line.len() + end.data.len());
    assert(later.skip(end.line.len() as int) =~= end.data);
    assert(later.take(end.line.len() as int) =~= end.line);
    assert(st.data.skip(data) =~= later.skip(end.line.len() as int));
    assert(later.take(end.line.len() as int) =~= mid.line + st.data.take(data));
}

/// The numbers that stood for the mode when the turns started.
pub open spec fn tx_codes(turns: Seq<TxRound>) -> Seq<u8> {
    Seq::new(turns.len(), |i: int| turns[i].code)
}

/// Whenever the data stream is let onto the line, the line carries a start of what was
/// written as commands, and then a start of what was written as data; what was not
/// sent still waits.
pub proof fn law_tx_over_every_change(
    st: TxState,
    turns: Seq<TxRound>,
    uses: Seq<ModeUse>,
    moments: Seq<int>,
)
    requires
        st.can_run(turns),
        seen(tx_codes(turns), uses, moments),
    ensures
        ({
            let end = st.ran(turns);
            let commands = st.at.len() - end.at.len();
            let data = st.data.len() - end.data.len();
            &&& 0 <= commands
            &&& 0 <= data
            &&& end.line == st.line + st.at.take(commands) + st.data.take(data)
            &&& end.at == st.at.skip(commands)
            &&& end.data == st.data.skip(data)
        }),
{
    let codes = tx_codes(turns);
    law_mode_changes_once(codes, uses, moments);
    lemma_first_data(codes);
    let n = first_data(codes);
    let first = turns.take(n);
    let then = turns.skip(n);
    assert(first + then =~= turns);
    assert forall|i: int| 0 <= i < first.len() implies Mode::numbered(#[trigger] first[i].code)
        == Mode::AT by {
        assert(codes[i] == first[i].code);
    }
    assert forall|i: int| 0 <= i < then.len() implies Mode::numbered(#[trigger] then[i].code)
        == Mode::Data by {
        assert(codes[n + i] == then[i].code);
    }
    law_tx_commands_before_data(st, first, then);
}

/// Once the line carries the data stream, what goes out is at any time a start of what
/// was written as data, no command goes out any more, and when the pipe is empty all of
/// the data was sent.
pub proof fn law_tx_sends_only_data(st: TxState, turns: Seq<TxRound>)
    requires
        st.can_run(turns),
        tx_in_mode(turns, Mode::Data),
    ensures
        ({
            let end = st.ran(turns);
            let data = st.data.len() - end.data.len();
            &&& 0 <= data
            &&& end.line == st.line + st.data.take(data)
            &&& end.data == st.data.skip(data)
            &&& end.at == st.at
            &&& end.data.len() == 0 ==> end.line == st.line + st.data
        }),
{
    let none = Seq::<TxRound>::empty();
    assert(none + turns =~= turns);
    law_tx_commands_before_data(st, none, turns);
    let end = st.ran(turns);
    law_tx_keeps_bytes(st, turns, Mode::Data);
    assert(st.line + st.at.take(0) =~= st.line);
    assert(end.data.len() == 0 ==> st.data.take(st.data.len() as int) =~= st.data);
}

/// The pump does not hold bytes back: each turn that reads any brings the end nearer, so
/// that after as many such turns as there are bytes, all were sent.
pub proof fn law_tx_makes_progress(st: TxState, turns: Seq<TxRound>, mode: Mode)
    requires
        st.can_run(turns),
        tx_in_mode(turns, mode),
        forall|i: int|
            0 <= i < turns.len() ==> (#[trigger] turns[i].event matches TxEvent::Dequeued(n)
                && n > 0),
    ensures
        st.ran(turns).waiting(mode).len() + turns.len() <= st.waiting(mode).len(),
        turns.len() == st.waiting(mode).len() ==> st.ran(turns).line == st.line + st.waiting(mode),
    decreases turns.len(),
{
    law_tx_keeps_bytes(st, turns, mode);
    if turns.len() > 0 {
        let before = turns.drop_last();
        assert(forall|i: int| 0 <= i < before.len() ==> #[trigger] before[i] == turns[i]);
        assert forall|i: int| 0 <= i < before.len() implies Mode::numbered(
            #[trigger] before[i].code,
        ) == mode by {
            assert(Mode::numbered(turns[i].code) == mode);
        }
        assert forall|i: int| 0 <= i < before.len() implies (
        #[trigger] before[i].event matches TxEvent::Dequeued(n) && n > 0) by {
            assert(turns[i].event matches TxEvent::Dequeued(n) && n > 0);
        }
        law_tx_makes_progress(st, before, mode);
        assert(turns[turns.len() - 1].event matches TxEvent::Dequeued(n) && n > 0);
        assert(Mode::numbered(turns[turns.len() - 1].code) == mode);
    }
    let end = st.ran(turns);
    if end.waiting(mode).len() == 0 {
        assert(end.line + end.waiting(mode) =~= end.line);
    }
}

/// A wait for commands that the change of the mode ended costs nothing: the turns behind
/// it send the data as if there had been no such wait, and all of it once the pipe is
/// empty, though no command ever came.
pub proof fn law_tx_wakes_to_data(st: TxState, code: u8, turns: Seq<TxRound>)
    requires
        st.can_run(turns),
        tx_in_mode(turns, Mode::Data),
    ensures
        ({
            let woken = seq![TxRound { code, event: TxEvent::ModeChanged }] + turns;
            let end = st.ran(woken);
            &&& st.can_run(woken)
            &&& end == st.ran(turns)
            &&& end.data.len() == 0 ==> end.line == st.line + st.data
        }),
{
    let wait = seq![TxRound { code, event: TxEvent::ModeChanged }];
    assert(wait.drop_last() =~= Seq::<TxRound>::empty());
    assert(st.ran(wait.drop_last()) == st);
    assert(st.can_run(wait.drop_last()));
    assert(st.waiting(Mode::numbered(code)).skip(0) =~= st.waiting(Mode::numbered(code)));
    assert(st.ran(wait) == st);
    assert(st.can_run(wait));
    lemma_tx_ran_on(st, wait, turns);
    law_tx_sends_only_data(st, turns);
}

/// How a wait for incoming bytes ended.
#[derive(Clone, Copy, Debug, PartialEq, Eq, Structural)]
pub enum RxEvent {
    /// So many bytes were read from the line.
    Received(usize),
    /// The line could not be read.
    Failed,
    /// The mode changed first.
    ModeChanged,
}

/// How many bytes there are to hand on when a wait has ended.
pub open spec fn received_len(event: RxEvent) -> Option<usize> {
    match event {
        RxEvent::Received(n) if n > 0 => Some(n),
        _ => None,
    }
}

/// The bytes to hand on when a wait that filled `buf` has ended.
pub open spec fn handed_on(buf: Seq<u8>, event: RxEvent) -> Option<Seq<u8>> {
    match received_len(event) {
        Some(n) => Some(buf.take(n as int)),
        None => None,
    }
}

/// Moves bytes from the line to its users.
///
/// In each turn the pump looks at the mode, waits for bytes on the line or for
/// another mode, and hands the bytes that it got to the users in that mode.
#[derive(Clone, Copy, Debug)]
pub struct RxPump;

impl RxPump {
    /// Starts a turn, in the given mode.
    pub fn run(mode: DataMode) -> (r: RxTurn)
        ensures
            r.sink == Mode::numbered(mode.code),
    {
        if mode.is_data_mode() {
            RxTurn { sink: Mode::Data }
        } else {
            RxTurn { sink: Mode::AT }
        }
    }
}

/// A turn of the incoming pump.
#[derive(Clone, Copy, Debug)]
pub struct RxTurn {
    /// The mode whose users get the bytes.
    pub sink: Mode,
}

impl RxTurn {
    /// How many bytes the turn hands on, if any, when the wait for them has ended.
    pub fn received(self, event: RxEvent) -> (r: Option<usize>)
        ensures
            r == received_len(event),
    {
        match event {
            RxEvent::Received(n) => if n > 0 {
                Some(n)
            } else {
                None
            },
            _ => None,
        }
    }

    /// The bytes of `buf` that the turn hands on, if any, when the wait for them has ended.
    pub fn incoming<'b>(self, buf: &'b [u8], event: RxEvent) -> (r: Option<&'b [u8]>)
        requires
            event matches RxEvent::Received(n) ==> n <= buf@.len(),
        ensures
            match r {
                Some(chunk) => handed_on(buf@, event) == Some(chunk@),
                None => handed_on(buf@, event) is None,
            },
    {
        match self.received(event) {
            Some(n) => {
                let chunk = slice_subrange(buf, 0, n);
                assert(chunk@ =~= buf@.take(n as int));
                Some(chunk)
            },
            None => None,
        }
    }
}

/// What happened in one turn of the incoming pump: the mode's number when it started,
/// and how the wait ended.
pub ghost struct RxRound {
    pub code: u8,
    pub event: RxEvent,
}

/// The bytes on their way in.
pub ghost struct RxState {
    /// What has come or will come over the line, and was not read yet.
    pub line: Seq<u8>,
    /// What the reader of answers and messages was given.
    pub at: Seq<u8>,
    /// What the users of the data stream were given.
    pub data: Seq<u8>,
}

impl RxState {
    /// What was handed on in a mode.
    pub open spec fn given(self, mode: Mode) -> Seq<u8> {
        match mode {
            Mode::AT => self.at,
            Mode::Data => self.data,
        }
    }

    /// No more bytes are read than there are.
    pub open spec fn can_turn(self, turn: RxRound) -> bool {
        turn.event matches RxEvent::Received(n) ==> n <= self.line.len()
    }

    /// The bytes after one turn: a read takes the first bytes of the line into the
    /// buffer, and the pump hands on what it has to.
    pub open spec fn turned(self, turn: RxRound) -> RxState {
        let mode = Mode::numbered(turn.code);
        let taken: int = match turn.event {
            RxEvent::Received(n) => n as int,
            _ => 0,
        };
        let line = self.line.skip(taken);
        let chunk = match handed_on(self.line, turn.event) {
            Some(chunk) => chunk,
            None => Seq::empty(),
        };
        match mode {
            Mode::AT => RxState { line, at: self.at + chunk, ..self },
            Mode::Data => RxState { line, data: self.data + chunk, ..self },
        }
    }

    /// The bytes after some turns.
    pub open spec fn ran(self, turns: Seq<RxRound>) -> RxState
        decreases turns.len(),
    {
        if turns.len() == 0 {
            self
        } else {
            self.ran(turns.drop_last()).turned(turns.last())
        }
    }

    /// No turn reads more bytes than there are.
    pub open spec fn can_run(self, turns: Seq<RxRound>) -> bool
        decreases turns.len(),
    {
        turns.len() > 0 ==> self.can_run(turns.drop_last()) && self.ran(
            turns.drop_last(),
        ).can_turn(turns.last())
    }
}

/// Every turn starts in the given mode.
pub open spec fn rx_in_mode(turns: Seq<RxRound>, mode: Mode) -> bool {
    forall|i: int| 0 <= i < turns.len() ==> Mode::numbered(#[trigger] turns[i].code) == mode
}

/// While the mode stays, the pump hands on every byte of the line, in its order, once,
/// to the users in that mode, and to nobody else.
pub proof fn law_rx_keeps_bytes(st: RxState, turns: Seq<RxRound>, mode: Mode)
    requires
        st.can_run(turns),
        rx_in_mode(turns, mode),
    ensures
        ({
            let end = st.ran(turns);
            &&& end.given(mode) + end.line == st.given(mode) + st.line
            &&& end.line.len() <= st.line.len()
            &&& mode == Mode::AT ==> end.data == st.data
            &&& mode == Mode::Data ==> end.at == st.at
        }),
    decreases turns.len(),
{
    if turns.len() > 0 {
        let mid = st.ran(turns.drop_last());
        assert forall|i: int| 0 <= i < turns.len() - 1 implies Mode::numbered(
            #[trigger] turns.drop_last()[i].code,
        ) == mode by {
            assert(turns.drop_last()[i] == turns[i]);
        }
        law_rx_keeps_bytes(st, turns.drop_last(), mode);
        assert(Mode::numbered(turns[turns.len() - 1].code) == mode);
        let end = mid.turned(turns.last());
        assert(end.given(mode) + end.line =~= mid.given(mode) + mid.line);
    }
}

/// Turns that follow each other are turns.
proof fn lemma_rx_ran_on(st: RxState, first: Seq<RxRound>, then: Seq<RxRound>)
    ensures
        st.ran(first + then) == st.ran(first).ran(then),
        st.can_run(first + then) == (st.can_run(first) && st.ran(first).can_run(then)),
    decreases then.len(),
{
    if then.len() == 0 {
        assert(first + then =~= first);
    } else {
        lemma_rx_ran_on(st, first, then.drop_last());
        assert((first + then).drop_last() =~= first + then.drop_last());
    }
}

/// When the mode changes from commands to data, the reader of answers gets what came
/// before the change, the users of the data stream get what came behind it, and no
/// byte is lost, repeated or given to both.
pub proof fn law_rx_answers_before_data(st: RxState, first: Seq<RxRound>, then: Seq<RxRound>)
    requires
        st.can_run(first + then),
        rx_in_mode(first, Mode::AT),
        rx_in_mode(then, Mode::Data),
    ensures
        ({
            let end = st.ran(first + then);
            let answers = end.at.len() - st.at.len();
            let data = end.data.len() - st.data.len();
            &&& 0 <= answers
            &&& 0 <= data
            &&& end.at == st.at + st.line.take(answers)
            &&& end.data == st.data + st.line.subrange(answers, answers + data)
            &&& end.line == st.line.skip(answers + data)
        }),
{
    let mid = st.ran(first);
    let end = mid.ran(then);
    lemma_rx_ran_on(st, first, then);
    law_rx_keeps_bytes(st, first, Mode::AT);
    law_rx_keeps_bytes(mid, then, Mode::Data);
    let answers = end.at.len() - st.at.len();
    let data = end.data.len() - st.data.len();
    let whole = st.at + st.line;
    assert(whole.len() == mid.at.len() + mid.line.len());
    assert(whole.take(mid.at.len() as int) =~= mid.at);
    assert(whole.take(mid.at.len() as int) =~= st.at + st.line.take(answers));
    assert(whole.skip(mid.at.len() as int) =~= mid.line);
    assert(whole.skip(mid.at.len() as int) =~= st.line.skip(answers));
    let later = st.data + mid.line;
    assert(later.len() == end.data.len() + end.line.len());
    assert(later.take(end.data.len() as int) =~= end.data);
    assert(later.take(end.data.len() as int) =~= st.data + st.line.subrange(
        answers,
        answers + data,
    ));
    assert(later.skip(end.data.len() as int) =~= end.line);
    assert(later.skip(end.data.len() as int) =~= st.line.skip(answers + data));
}

/// The numbers that stood for the mode when the turns started.
pub open spec fn rx_codes(turns: Seq<RxRound>) -> Seq<u8> {
    Seq::new(turns.len(), |i: int| turns[i].code)
}

/// Whenever the data stream is let onto the line, the reader of answers gets what came
/// before the change was seen, the users of the data stream get what came behind it, and
/// no byte is lost, repeated or given to both.
pub proof fn law_rx_over_every_change(
    st: RxState,
    turns: Seq<RxRound>,
    uses: Seq<ModeUse>,
    moments: Seq<int>,
)
    requires
        st.can_run(turns),
        seen(rx_codes(turns), uses, moments),
    ensures
        ({
            let end = st.ran(turns);
            let answers = end.at.len() - st.at.len();
            let data = end.data.len() - st.data.len();
            &&& 0 <= answers
            &&& 0 <= data
            &&& end.at == st.at + st.line.take(answers)
            &&& end.data == st.data + st.line.subrange(answers, answers + data)
            &&& end.line == st.line.skip(answers + data)
        }),
{
    let codes = rx_codes(turns);
    law_mode_changes_once(codes, uses, moments);
    lemma_first_data(codes);
    let n = first_data(codes);
    let first = turns.take(n);
    let then = turns.skip(n);
    assert(first + then =~= turns);
    assert forall|i: int| 0 <= i < first.len() implies Mode::numbered(#[trigger] first[i].code)
        == Mode::AT by {
        assert(codes[i] == first[i].code);
    }
    assert forall|i: int| 0 <= i < then.len() implies Mode::numbered(#[trigger] then[i].code)
        == Mode::Data by {
        assert(codes[n + i] == then[i].code);
    }
    law_rx_answers_before_data(st, first, then);
}

/// Only a line of its own that starts with `CONNECT` is noticed: what is found are bytes
/// without a line break, a line break, the word, more bytes without a line break, and a
/// line break.
pub proof fn law_only_connect_is_noticed<'a>(input: &'a [u8], found: &'a [u8], len: usize)
    requires
        call_ensures(
            parse_connect_success,
            (input,),
            Ok::<(&'a [u8], usize), NoMatch>((found, len)),
        ),
    ensures
        found@.len() == len,
        found@.is_prefix_of(input@),
        exists|before: Seq<u8>, text: Seq<u8>|
            {
                &&& #[trigger] bytes::first_crlf(before) is None
                &&& #[trigger] bytes::first_crlf(text) is None
                &&& found@ == before + seq![13u8, 10] + bytes::ascii("CONNECT"@) + text + seq![
                    13u8,
                    10,
                ]
            },
{
    reveal_strlit("CONNECT");
    let s = input@;
    let word = bytes::ascii("CONNECT"@);
    bytes::lemma_first_crlf(s);
    let start = bytes::first_crlf(s)->0;
    let line = s.skip(start + 2);
    bytes::lemma_first_crlf(line);
    let end = bytes::first_crlf(line)->0;
    assert(line.subrange(0, 7) =~= word);
    if end < 7 {
        assert(line[end] == word[end]);
        assert(word[end] == "CONNECT"@[end] as u8);
    }
    let before = s.take(start);
    let text = line.subrange(7, end);
    bytes::lemma_first_crlf(before);
    assert forall|j: int| !#[trigger] bytes::crlf_at(before, j) by {
        if bytes::crlf_at(before, j) {
            assert(bytes::crlf_at(s, j));
        }
    }
    bytes::lemma_first_crlf(text);
    assert forall|j: int| !#[trigger] bytes::crlf_at(text, j) by {
        if bytes::crlf_at(text, j) {
            assert(bytes::crlf_at(line, j + 7));
        }
    }
    assert forall|i: int| 0 <= i < 7 implies #[trigger] s[start + 2 + i] == word[i] by {
        assert(line.subrange(0, 7)[i] == word[i]);
    }
    assert(s.take(len as int) =~= before + seq![13u8, 10] + word + text + seq![13u8, 10]);
    assert(s.subrange(0, len as int) =~= s.take(len as int));
}

/// A line that starts with `CONNECT` is noticed by a call, with all that stands before it
/// and nothing that stands behind it.
pub proof fn law_connect_is_noticed_by_a_call<'a>(
    input: &'a [u8],
    r: Result<(&'a [u8], usize), NoMatch>,
    before: Seq<u8>,
    text: Seq<u8>,
    rest: Seq<u8>,
)
    requires
        call_ensures(parse_connect_success, (input,), r),
        bytes::first_crlf(before) is None,
        bytes::first_crlf(text) is None,
        input@ == before + seq![13u8, 10] + bytes::ascii("CONNECT"@) + text + seq![13u8, 10] + rest,
    ensures
        r matches Ok((found, len)) && found@ == before + seq![13u8, 10] + bytes::ascii("CONNECT"@)
            + text + seq![13u8, 10] && len == found@.len(),
{
    law_connection_is_noticed(before, text, rest);
    let word = bytes::ascii("CONNECT"@);
    let whole = before + seq![13u8, 10] + word + text + seq![13u8, 10];
    assert(input@ =~= before + seq![CR, LF] + (word + text) + seq![CR, LF] + rest);
    assert(input@ =~= whole + rest);
    assert(input@.take(whole.len() as int) =~= whole);
}

/// One number stands for the mode of the data stream; every other is taken for that of
/// commands.
pub proof fn law_one_number_is_data(
    mode: DataMode,
    is_data: bool,
    tx: TxTurn,
    rx: RxTurn,
)
    requires
        call_ensures(DataMode::is_data_mode, (&mode,), is_data),
        call_ensures(TxPump::run, (mode,), tx),
        call_ensures(RxPump::run, (mode,), rx),
    ensures
        is_data == (mode.code == 1),
        tx.source == (if mode.code == 1 {
            Mode::Data
        } else {
            Mode::AT
        }),
        rx.sink == tx.source,
        Mode::numbered(mode.code) == tx.source,
{
}

/// Commands and data have different numbers, those that are shared with the tasks of the
/// line.
pub proof fn law_mode_numbers(mode: Mode, r: u8, first: DataMode, any: DataMode)
    requires
        call_ensures(Mode::code, (mode,), r),
        call_ensures(DataMode::new_at, (), first),
    ensures
        r == 0 <==> mode == Mode::AT,
        r == 1 <==> mode == Mode::Data,
        first.code == 0,
        any.entered().code == 1,
        AT_MODE == 0,
        DATA_MODE == 1,
{
}

/// A turn writes the bytes that it read, all of them and no others, and nothing when the
/// mode changed.
pub proof fn law_turn_writes_what_it_read<'b>(
    turn: TxTurn,
    buf: &'b [u8],
    event: TxEvent,
    r: Option<&'b [u8]>,
)
    requires
        call_ensures(TxTurn::outgoing, (turn, buf, event), r),
        event matches TxEvent::Dequeued(n) ==> n <= buf@.len(),
    ensures
        match event {
            TxEvent::Dequeued(n) => r matches Some(chunk) && chunk@.len() == n && forall|i: int|
                0 <= i < n ==> #[trigger] chunk@[i] == buf@[i],
            TxEvent::ModeChanged => r is None,
        },
{
}

/// A turn hands on the bytes that it read, all of them and no others; where it read none,
/// could not read, or the mode changed, it hands on nothing.
pub proof fn law_turn_hands_on_what_it_read<'b>(
    turn: RxTurn,
    buf: &'b [u8],
    event: RxEvent,
    count: Option<usize>,
    r: Option<&'b [u8]>,
)
    requires
        call_ensures(RxTurn::received, (turn, event), count),
        call_ensures(RxTurn::incoming, (turn, buf, event), r),
        event matches RxEvent::Received(n) ==> n <= buf@.len(),
    ensures
        match event {
            RxEvent::Received(n) => if n == 0 {
                count is None && r is None
            } else {
                &&& count == Some(n)
                &&& r matches Some(chunk) && chunk@.len() == n && forall|i: int|
                    0 <= i < n ==> #[trigger] chunk@[i] == buf@[i]
            },
            _ => count is None && r is None,
        },
{
}

/// The incoming pump does not hold bytes back: each turn that reads any brings the end
/// nearer, so that after as many such turns as there are bytes on the line, all were
/// handed on.
pub proof fn law_rx_makes_progress(st: RxState, turns: Seq<RxRound>, mode: Mode)
    requires
        st.can_run(turns),
        rx_in_mode(turns, mode),
        forall|i: int|
            0 <= i < turns.len() ==> (#[trigger] turns[i].event matches RxEvent::Received(n)
                && n > 0),
    ensures
        st.ran(turns).line.len() + turns.len() <= st.line.len(),
        turns.len() == st.line.len() ==> st.ran(turns).given(mode) == st.given(mode) + st.line,
    decreases turns.len(),
{
    law_rx_keeps_bytes(st, turns, mode);
    if turns.len() > 0 {
        let before = turns.drop_last();
        assert(forall|i: int| 0 <= i < before.len() ==> #[trigger] before[i] == turns[i]);
        assert forall|i: int| 0 <= i < before.len() implies Mode::numbered(
            #[trigger] before[i].code,
        ) == mode by {
            assert(Mode::numbered(turns[i].code) == mode);
        }
        assert forall|i: int| 0 <= i < before.len() implies (
        #[trigger] before[i].event matches RxEvent::Received(n) && n > 0) by {
            assert(turns[i].event matches RxEvent::Received(n) && n > 0);
        }
        law_rx_makes_progress(st, before, mode);
        assert(turns[turns.len() - 1].event matches RxEvent::Received(n) && n > 0);
    }
    let end = st.ran(turns);
    if end.line.len() == 0 {
        assert(end.given(mode) + end.line =~= end.given(mode));
    }
}

/// A byte that is taken off the line is handed on in the same turn, in the mode of the
/// turn, and a byte that is not taken stays on the line.
pub proof fn law_rx_turn_keeps_bytes(st: RxState, turn: RxRound)
    requires
        st.can_turn(turn),
    ensures
        ({
            let mode = if turn.code == 1 {
                Mode::Data
            } else {
                Mode::AT
            };
            let taken: int = match turn.event {
                RxEvent::Received(n) => n as int,
                _ => 0,
            };
            let end = st.turned(turn);
            &&& end.line == st.line.skip(taken)
            &&& end.given(mode) == st.given(mode) + st.line.take(taken)
        }),
{
    let taken: int = match turn.event {
        RxEvent::Received(n) => n as int,
        _ => 0,
    };
    let end = st.turned(turn);
    let mode = Mode::numbered(turn.code);
    assert(end.given(mode) =~= st.given(mode) + st.line.take(taken));
}

} // verus!
