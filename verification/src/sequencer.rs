//! The decisions of the real-time sequencer: how each control command
//! changes its state, and what becomes of the playback position.
use vstd::prelude::*;
use crate::patterns::{Song, SongView};

verus! {

/// A command sent to the sequencer. A position request carries its time
/// alongside, outside this type.
pub enum TransportCommand {
    Play,
    Stop,
    UpdateSong(Song),
    SetPosition,
}

/// What a command does to the playback position.
#[derive(Clone, Copy, Debug, PartialEq, Eq, Structural)]
pub enum PositionChange {
    /// The position stays where it is.
    Keep,
    /// The position goes back to the start.
    ToStart,
    /// The position goes to the time that came with the request.
    ToRequested,
}

/// Whether the sequencer is playing, and the song it holds.
pub struct SequencerState {
    pub playing: bool,
    pub song: Song,
}

/// The state after a command, as (playing, song), and its effect on the
/// position: `Play` starts, `Stop` stops and rewinds, `UpdateSong` replaces
/// the song, `SetPosition` moves the position; nothing else changes.
pub open spec fn spec_handle(
    playing: bool,
    song: SongView,
    cmd: TransportCommand,
) -> (bool, SongView, PositionChange) {
    match cmd {
        TransportCommand::Play => (true, song, PositionChange::Keep),
        TransportCommand::Stop => (false, song, PositionChange::ToStart),
        TransportCommand::UpdateSong(s) => (playing, s@, PositionChange::Keep),
        TransportCommand::SetPosition => (playing, song, PositionChange::ToRequested),
    }
}

/// Where the playback position ends after a queue of commands.
#[derive(Clone, Copy, Debug, PartialEq, Eq, Structural)]
pub enum PositionOutcome {
    /// No command moved it.
    Unchanged,
    /// The last command that moved it was `Stop`: back to the start.
    Start,
    /// The last command that moved it was the `SetPosition` at this index
    /// of the queue: to the time that came with it.
    Requested(usize),
}

/// Applies `cmds` in order to (playing, song), keeping track of the last
/// command that moved the position.
pub open spec fn run_commands(
    playing: bool,
    song: SongView,
    cmds: Seq<TransportCommand>,
) -> (bool, SongView, PositionOutcome)
    decreases cmds.len(),
{
    if cmds.len() == 0 {
        (playing, song, PositionOutcome::Unchanged)
    } else {
        let before = run_commands(playing, song, cmds.drop_last());
        let after = spec_handle(before.0, before.1, cmds.last());
        let pos = match after.2 {
            PositionChange::Keep => before.2,
            PositionChange::ToStart => PositionOutcome::Start,
            PositionChange::ToRequested => PositionOutcome::Requested((cmds.len() - 1) as usize),
        };
        (after.0, after.1, pos)
    }
}

/// Whether the command starts or stops playback.
pub open spec fn starts_or_stops(cmd: TransportCommand) -> bool {
    cmd is Play || cmd is Stop
}

/// Whether the command moves the playback position.
pub open spec fn moves_position(cmd: TransportCommand) -> bool {
    cmd is Stop || cmd is SetPosition
}

impl SequencerState {
    /// A stopped sequencer holding `song`.
    pub fn new(song: Song) -> (s: Self)
        ensures
            !s.playing,
            s.song@ == song@,
    {
        SequencerState { playing: false, song }
    }

    /// Applies one command (see `spec_handle`).
    pub fn handle(&mut self, cmd: TransportCommand) -> (change: PositionChange)
        ensures
            (final(self).playing, final(self).song@, change) == spec_handle(
                old(self).playing,
                old(self).song@,
                cmd,
            ),
    {
        match cmd {
            TransportCommand::Play => {
                self.playing = true;
                PositionChange::Keep
            },
            TransportCommand::Stop => {
                self.playing = false;
                PositionChange::ToStart
            },
            TransportCommand::UpdateSong(s) => {
                self.song = s;
                PositionChange::Keep
            },
            TransportCommand::SetPosition => PositionChange::ToRequested,
        }
    }

    /// Applies the queued commands in the order they came (see
    /// `run_commands`), and says where the position ends.
    pub fn handle_all(&mut self, cmds: Vec<TransportCommand>) -> (pos: PositionOutcome)
        ensures
            (final(self).playing, final(self).song@, pos) == run_commands(
                old(self).playing,
                old(self).song@,
                cmds@,
            ),
    {
        let ghost all = cmds@;
        let ghost playing0 = self.playing;
        let ghost song0 = self.song@;
        let mut cmds = cmds;
        let mut pos = PositionOutcome::Unchanged;
        let n = cmds.len();
        let mut k: usize = 0;
        assert(all.take(0) =~= Seq::<TransportCommand>::empty());
        while k < n
            invariant
                k <= n,
                n == all.len(),
                cmds@ == all.skip(k as int),
                (self.playing, self.song@, pos) == run_commands(playing0, song0, all.take(k as int)),
            decreases n - k,
        {
            let cmd = cmds.remove(0);
            assert(cmd == all[k as int]);
            assert(all.take(k + 1).drop_last() =~= all.take(k as int));
            assert(all.take(k + 1).last() == all[k as int]);
            let change = self.handle(cmd);
            match change {
                PositionChange::Keep => {},
                PositionChange::ToStart => {
                    pos = PositionOutcome::Start;
                },
                PositionChange::ToRequested => {
                    pos = PositionOutcome::Requested(k);
                },
            }
            assert(cmds@ =~= all.skip(k + 1));
            k = k + 1;
        }
        assert(all.take(n as int) =~= all);
        pos
    }

    /// Whether the next buffer carries sound (otherwise it is silence).
    pub fn sounding(&self) -> (r: bool)
        ensures
            r == self.playing,
    {
        self.playing
    }
}

/// The number of whole stereo frames in an interleaved buffer of `len` samples.
pub fn frame_count(len: usize) -> (n: usize)
    ensures
        n == len / 2,
        2 * n <= len,
{
    len / 2
}

/// Stopping always leaves the sequencer silent and rewound, whatever came
/// before; starting always leaves it playing, at the same position.
pub proof fn law_stop_and_play(playing: bool, song: SongView)
    ensures
        spec_handle(playing, song, TransportCommand::Stop) == (false, song, PositionChange::ToStart),
        spec_handle(playing, song, TransportCommand::Play) == (true, song, PositionChange::Keep),
        spec_handle(
            spec_handle(playing, song, TransportCommand::Play).0,
            song,
            TransportCommand::Stop,
        ).0 == false,
{
}

/// Replacing the song or moving the position never starts or stops playback.
pub proof fn law_playing_unchanged(playing: bool, song: SongView, new_song: Song)
    ensures
        spec_handle(playing, song, TransportCommand::UpdateSong(new_song)).0 == playing,
        spec_handle(playing, song, TransportCommand::UpdateSong(new_song)).1 == new_song@,
        spec_handle(playing, song, TransportCommand::SetPosition).0 == playing,
{
}


proof fn lemma_queue_playing(playing: bool, song: SongView, cmds: Seq<TransportCommand>)
    ensures
        (forall|i: int| 0 <= i < cmds.len() ==> !starts_or_stops(#[trigger] cmds[i]))
            ==> run_commands(playing, song, cmds).0 == playing,
        forall|i: int|
            0 <= i < cmds.len() && starts_or_stops(#[trigger] cmds[i]) && (forall|j: int|
                i < j < cmds.len() ==> !starts_or_stops(#[trigger] cmds[j]))
                ==> run_commands(playing, song, cmds).0 == (cmds[i] is Play),
    decreases cmds.len(),
{
    if cmds.len() > 0 {
        let init = cmds.drop_last();
        let n = cmds.len() - 1;
        lemma_queue_playing(playing, song, init);
        assert forall|i: int| 0 <= i < init.len() implies #[trigger] init[i] == cmds[i] by {}
        assert(cmds.last() == cmds[n]);
        let before = run_commands(playing, song, init);
        let run = run_commands(playing, song, cmds);
        if starts_or_stops(cmds[n]) {
            assert(run.0 == (cmds[n] is Play));
        } else {
            assert(run.0 == before.0);
            assert forall|i: int|
                0 <= i < cmds.len() && starts_or_stops(#[trigger] cmds[i]) && (forall|j: int|
                    i < j < cmds.len() ==> !starts_or_stops(#[trigger] cmds[j]))
                    implies run.0 == (cmds[i] is Play) by {
                assert(i < n);
                assert(init[i] == cmds[i]);
                assert forall|j: int| i < j < init.len() implies !starts_or_stops(#[trigger] init[j]) by {
                    assert(init[j] == cmds[j]);
                }
            }
        }
    }
}

proof fn lemma_queue_song(playing: bool, song: SongView, cmds: Seq<TransportCommand>)
    ensures
        (forall|i: int| 0 <= i < cmds.len() ==> !(#[trigger] cmds[i] is UpdateSong))
            ==> run_commands(playing, song, cmds).1 == song,
        forall|i: int|
            0 <= i < cmds.len() && #[trigger] cmds[i] is UpdateSong && (forall|j: int|
                i < j < cmds.len() ==> !(#[trigger] cmds[j] is UpdateSong))
                ==> run_commands(playing, song, cmds).1 == (cmds[i]->0)@,
    decreases cmds.len(),
{
    if cmds.len() > 0 {
        let init = cmds.drop_last();
        let n = cmds.len() - 1;
        lemma_queue_song(playing, song, init);
        assert forall|i: int| 0 <= i < init.len() implies #[trigger] init[i] == cmds[i] by {}
        assert(cmds.last() == cmds[n]);
        let before = run_commands(playing, song, init);
        let run = run_commands(playing, song, cmds);
        if cmds[n] is UpdateSong {
            assert(run.1 == (cmds[n]->0)@);
        } else {
            assert(run.1 == before.1);
            assert forall|i: int|
                0 <= i < cmds.len() && #[trigger] cmds[i] is UpdateSong && (forall|j: int|
                    i < j < cmds.len() ==> !(#[trigger] cmds[j] is UpdateSong))
                    implies run.1 == (cmds[i]->0)@ by {
                assert(i < n);
                assert(init[i] == cmds[i]);
                assert forall|j: int| i < j < init.len() implies !(#[trigger] init[j] is UpdateSong) by {
                    assert(init[j] == cmds[j]);
                }
            }
        }
    }
}

proof fn lemma_queue_position(playing: bool, song: SongView, cmds: Seq<TransportCommand>)
    ensures
        (forall|i: int| 0 <= i < cmds.len() ==> !moves_position(#[trigger] cmds[i]))
            ==> run_commands(playing, song, cmds).2 == PositionOutcome::Unchanged,
        forall|i: int|
            0 <= i < cmds.len() && moves_position(#[trigger] cmds[i]) && (forall|j: int|
                i < j < cmds.len() ==> !moves_position(#[trigger] cmds[j]))
                ==> run_commands(playing, song, cmds).2 == (if cmds[i] is Stop {
                PositionOutcome::Start
            } else {
                PositionOutcome::Requested(i as usize)
            }),
    decreases cmds.len(),
{
    if cmds.len() > 0 {
        let init = cmds.drop_last();
        let n = cmds.len() - 1;
        lemma_queue_position(playing, song, init);
        assert forall|i: int| 0 <= i < init.len() implies #[trigger] init[i] == cmds[i] by {}
        assert(cmds.last() == cmds[n]);
        let before = run_commands(playing, song, init);
        let run = run_commands(playing, song, cmds);
        if moves_position(cmds[n]) {
            assert(run.2 == (if cmds[n] is Stop {
                PositionOutcome::Start
            } else {
                PositionOutcome::Requested(n as usize)
            }));
        } else {
            assert(run.2 == before.2);
            assert forall|i: int|
                0 <= i < cmds.len() && moves_position(#[trigger] cmds[i]) && (forall|j: int|
                    i < j < cmds.len() ==> !moves_position(#[trigger] cmds[j]))
                    implies run.2 == (if cmds[i] is Stop {
                    PositionOutcome::Start
                } else {
                    PositionOutcome::Requested(i as usize)
                }) by {
                assert(i < n);
                assert(init[i] == cmds[i]);
                assert forall|j: int| i < j < init.len() implies !moves_position(#[trigger] init[j]) by {
                    assert(init[j] == cmds[j]);
                }
            }
        }
    }
}

/// A queue of commands is applied in the order it came: the sequencer ends
/// up playing exactly when the last `Play` or `Stop` among them is `Play`
/// (with neither, as it was), holding the song of the last `UpdateSong`
/// (with none, the song it had), and the position ends where the last
/// `Stop` or `SetPosition` put it (with neither, where it was).
pub proof fn law_command_queue(playing: bool, song: SongView, cmds: Seq<TransportCommand>)
    ensures
        (forall|i: int| 0 <= i < cmds.len() ==> !starts_or_stops(#[trigger] cmds[i]))
            ==> run_commands(playing, song, cmds).0 == playing,
        forall|i: int|
            0 <= i < cmds.len() && starts_or_stops(#[trigger] cmds[i]) && (forall|j: int|
                i < j < cmds.len() ==> !starts_or_stops(#[trigger] cmds[j]))
                ==> run_commands(playing, song, cmds).0 == (cmds[i] is Play),
        (forall|i: int| 0 <= i < cmds.len() ==> !(#[trigger] cmds[i] is UpdateSong))
            ==> run_commands(playing, song, cmds).1 == song,
        forall|i: int|
            0 <= i < cmds.len() && #[trigger] cmds[i] is UpdateSong && (forall|j: int|
                i < j < cmds.len() ==> !(#[trigger] cmds[j] is UpdateSong))
                ==> run_commands(playing, song, cmds).1 == (cmds[i]->0)@,
        (forall|i: int| 0 <= i < cmds.len() ==> !moves_position(#[trigger] cmds[i]))
            ==> run_commands(playing, song, cmds).2 == PositionOutcome::Unchanged,
        forall|i: int|
            0 <= i < cmds.len() && moves_position(#[trigger] cmds[i]) && (forall|j: int|
                i < j < cmds.len() ==> !moves_position(#[trigger] cmds[j]))
                ==> run_commands(playing, song, cmds).2 == (if cmds[i] is Stop {
                PositionOutcome::Start
            } else {
                PositionOutcome::Requested(i as usize)
            }),
{
    lemma_queue_playing(playing, song, cmds);
    lemma_queue_song(playing, song, cmds);
    lemma_queue_position(playing, song, cmds);
}

} // verus!
