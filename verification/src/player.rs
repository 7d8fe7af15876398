//! The audio player's state: which file is loaded, which of a pair is heard, where
//! playback stands; and what the audio thread does with its two channels. The
//! sound itself is made by the program around it, which carries out [`SinkOp`]s.

use vstd::prelude::*;

use crate::filter_ui::opt_view;
use crate::text::{copy, copy_opt};

verus! {

/// A command to the audio thread.
#[derive(Debug, PartialEq, Eq)]
pub enum Cmd {
    /// Load one file; `paused` holds it.
    Play { path: String, total_ms: u64, start_ms: u64, paused: bool },
    /// Load two files that play in step, one of them heard.
    PlayPair { path_a: String, path_b: String, total_ms: u64, start_ms: u64 },
    /// Swap which file of a pair is heard.
    Flip,
    TogglePause,
    /// Go to this position.
    Seek(u64),
    Stop,
}

/// The contents of a command.
pub enum CmdModel {
    Play { path: Seq<char>, total_ms: u64, start_ms: u64, paused: bool },
    PlayPair { path_a: Seq<char>, path_b: Seq<char>, total_ms: u64, start_ms: u64 },
    Flip,
    TogglePause,
    Seek(u64),
    Stop,
}

impl View for Cmd {
    type V = CmdModel;

    open spec fn view(&self) -> CmdModel {
        match self {
            Cmd::Play { path, total_ms, start_ms, paused } => CmdModel::Play {
                path: path@,
                total_ms: *total_ms,
                start_ms: *start_ms,
                paused: *paused,
            },
            Cmd::PlayPair { path_a, path_b, total_ms, start_ms } => CmdModel::PlayPair {
                path_a: path_a@,
                path_b: path_b@,
                total_ms: *total_ms,
                start_ms: *start_ms,
            },
            Cmd::Flip => CmdModel::Flip,
            Cmd::TogglePause => CmdModel::TogglePause,
            Cmd::Seek(ms) => CmdModel::Seek(*ms),
            Cmd::Stop => CmdModel::Stop,
        }
    }
}

/// The player's state, shared by the controls and the audio thread.
#[derive(Debug, PartialEq, Eq)]
pub struct Player {
    /// The content hashes of the loaded files.
    pub hex_a: Option<String>,
    pub hex_b: Option<String>,
    /// Two files are loaded.
    pub paired: bool,
    /// Of a pair, the second is heard.
    pub active_b: bool,
    pub pos_ms: u64,
    pub total_ms: u64,
    /// A file is loaded and not paused.
    pub playing: bool,
    /// A file is loaded.
    pub loaded: bool,
}

/// The player's contents.
pub struct PlayerModel {
    pub hex_a: Option<Seq<char>>,
    pub hex_b: Option<Seq<char>>,
    pub paired: bool,
    pub active_b: bool,
    pub pos_ms: u64,
    pub total_ms: u64,
    pub playing: bool,
    pub loaded: bool,
}

impl View for Player {
    type V = PlayerModel;

    open spec fn view(&self) -> PlayerModel {
        PlayerModel {
            hex_a: opt_view(self.hex_a),
            hex_b: opt_view(self.hex_b),
            paired: self.paired,
            active_b: self.active_b,
            pos_ms: self.pos_ms,
            total_ms: self.total_ms,
            playing: self.playing,
            loaded: self.loaded,
        }
    }
}

/// The player's state in one frame.
#[derive(Debug, PartialEq, Eq)]
pub struct PlayerSnapshot {
    /// The file that is heard.
    pub hex: Option<String>,
    pub hex_a: Option<String>,
    pub hex_b: Option<String>,
    pub paired: bool,
    pub pos_ms: u64,
    pub total_ms: u64,
    pub playing: bool,
    pub loaded: bool,
}

/// The earlier of two positions.
pub open spec fn earlier(a: u64, b: u64) -> u64 {
    if a <= b {
        a
    } else {
        b
    }
}

impl PlayerModel {
    /// Nothing loaded.
    pub open spec fn silent() -> PlayerModel {
        PlayerModel {
            hex_a: None,
            hex_b: None,
            paired: false,
            active_b: false,
            pos_ms: 0,
            total_ms: 0,
            playing: false,
            loaded: false,
        }
    }

    /// One file loaded.
    pub open spec fn loading(self, hex: Seq<char>, total_ms: u64, start_ms: u64, paused: bool) -> PlayerModel {
        PlayerModel {
            hex_a: Some(hex),
            hex_b: None,
            paired: false,
            active_b: false,
            pos_ms: earlier(start_ms, total_ms),
            total_ms,
            playing: !paused,
            loaded: true,
        }
    }

    /// Stopped: nothing is loaded.
    pub open spec fn stopped(self) -> PlayerModel {
        PlayerModel {
            hex_a: None,
            hex_b: None,
            paired: false,
            loaded: false,
            playing: false,
            pos_ms: 0,
            ..self
        }
    }

    /// The track ended by itself.
    pub open spec fn ended(self) -> PlayerModel {
        PlayerModel {
            hex_a: None,
            hex_b: None,
            paired: false,
            loaded: false,
            playing: false,
            ..self
        }
    }

    /// The other file of a pair is heard.
    pub open spec fn flipped(self) -> PlayerModel {
        PlayerModel { active_b: !self.active_b, ..self }
    }

    /// The file that is heard.
    pub open spec fn heard(self) -> Option<Seq<char>> {
        if self.active_b {
            self.hex_b
        } else {
            self.hex_a
        }
    }
}

impl Default for Player {
    fn default() -> (r: Self)
        ensures
            r@ == PlayerModel::silent(),
    {
        Player::new()
    }
}

impl Player {
    /// Nothing loaded.
    pub fn new() -> (r: Self)
        ensures
            r@ == PlayerModel::silent(),
    {
        Player {
            hex_a: None,
            hex_b: None,
            paired: false,
            active_b: false,
            pos_ms: 0,
            total_ms: 0,
            playing: false,
            loaded: false,
        }
    }

    /// Plays a file from a position.
    pub fn play(&mut self, hex: &str, path: &str, total_ms: u64, start_ms: u64) -> (r: Cmd)
        ensures
            final(self)@ == old(self)@.loading(hex@, total_ms, start_ms, false),
            r@ == (CmdModel::Play {
                path: path@,
                total_ms,
                start_ms: earlier(start_ms, total_ms),
                paused: false,
            }),
    {
        self.load(hex, path, total_ms, start_ms, false)
    }

    /// Loads a file and holds it at a position.
    pub fn load_paused(&mut self, hex: &str, path: &str, total_ms: u64, start_ms: u64) -> (r: Cmd)
        ensures
            final(self)@ == old(self)@.loading(hex@, total_ms, start_ms, true),
            r@ == (CmdModel::Play {
                path: path@,
                total_ms,
                start_ms: earlier(start_ms, total_ms),
                paused: true,
            }),
    {
        self.load(hex, path, total_ms, start_ms, true)
    }

    fn load(&mut self, hex: &str, path: &str, total_ms: u64, start_ms: u64, paused: bool) -> (r: Cmd)
        ensures
            final(self)@ == old(self)@.loading(hex@, total_ms, start_ms, paused),
            r@ == (CmdModel::Play {
                path: path@,
                total_ms,
                start_ms: earlier(start_ms, total_ms),
                paused,
            }),
    {
        let start: u64 = if start_ms <= total_ms {
            start_ms
        } else {
            total_ms
        };
        *self = Player {
            hex_a: Some(copy(hex)),
            hex_b: None,
            paired: false,
            active_b: false,
            pos_ms: start,
            total_ms,
            playing: !paused,
            loaded: true,
        };
        Cmd::Play { path: copy(path), total_ms, start_ms: start, paused }
    }

    /// Plays two files in step, one of them heard.
    pub fn play_pair(
        &mut self,
        hex_a: &str,
        path_a: &str,
        hex_b: &str,
        path_b: &str,
        total_ms: u64,
        start_ms: u64,
        audible_b: bool,
    ) -> (r: Cmd)
        ensures
            final(self)@ == (PlayerModel {
                hex_a: Some(hex_a@),
                hex_b: Some(hex_b@),
                paired: true,
                active_b: audible_b,
                pos_ms: earlier(start_ms, total_ms),
                total_ms,
                playing: true,
                loaded: true,
            }),
            r@ == (CmdModel::PlayPair {
                path_a: path_a@,
                path_b: path_b@,
                total_ms,
                start_ms: earlier(start_ms, total_ms),
            }),
    {
        let start: u64 = if start_ms <= total_ms {
            start_ms
        } else {
            total_ms
        };
        *self = Player {
            hex_a: Some(copy(hex_a)),
            hex_b: Some(copy(hex_b)),
            paired: true,
            active_b: audible_b,
            pos_ms: start,
            total_ms,
            playing: true,
            loaded: true,
        };
        Cmd::PlayPair { path_a: copy(path_a), path_b: copy(path_b), total_ms, start_ms: start }
    }

    /// Swaps which file of a pair is heard.
    pub fn flip(&mut self) -> (r: Cmd)
        ensures
            final(self)@ == old(self)@.flipped(),
            r@ == CmdModel::Flip,
    {
        self.active_b = !self.active_b;
        Cmd::Flip
    }

    /// Pauses, or goes on.
    pub fn toggle_pause(&mut self) -> (r: Cmd)
        ensures
            final(self)@ == (PlayerModel { playing: !old(self)@.playing, ..old(self)@ }),
            r@ == CmdModel::TogglePause,
    {
        self.playing = !self.playing;
        Cmd::TogglePause
    }

    /// Stops, and unloads.
    pub fn stop(&mut self) -> (r: Cmd)
        ensures
            final(self)@ == old(self)@.stopped(),
            r@ == CmdModel::Stop,
    {
        self.hex_a = None;
        self.hex_b = None;
        self.paired = false;
        self.loaded = false;
        self.playing = false;
        self.pos_ms = 0;
        Cmd::Stop
    }

    /// Goes to a position, or to the end where that is earlier.
    pub fn seek_ms(&mut self, pos_ms: u64) -> (r: Cmd)
        ensures
            final(self)@ == (PlayerModel {
                pos_ms: earlier(pos_ms, old(self)@.total_ms),
                ..old(self)@
            }),
            r@ == CmdModel::Seek(earlier(pos_ms, old(self)@.total_ms)),
    {
        let to = if pos_ms <= self.total_ms {
            pos_ms
        } else {
            self.total_ms
        };
        self.pos_ms = to;
        Cmd::Seek(to)
    }

    /// The state in this frame.
    pub fn snapshot(&self) -> (r: PlayerSnapshot)
        ensures
            opt_view(r.hex) == self@.heard(),
            opt_view(r.hex_a) == self@.hex_a,
            opt_view(r.hex_b) == self@.hex_b,
            r.paired == self@.paired,
            r.pos_ms == self@.pos_ms,
            r.total_ms == self@.total_ms,
            r.playing == self@.playing,
            r.loaded == self@.loaded,
    {
        let hex = if self.active_b {
            copy_opt(&self.hex_b)
        } else {
            copy_opt(&self.hex_a)
        };
        PlayerSnapshot {
            hex,
            hex_a: copy_opt(&self.hex_a),
            hex_b: copy_opt(&self.hex_b),
            paired: self.paired,
            pos_ms: self.pos_ms,
            total_ms: self.total_ms,
            playing: self.playing,
            loaded: self.loaded,
        }
    }

    /// Whether a file is loaded.
    pub fn is_active(&self) -> (r: bool)
        ensures
            r == self@.loaded,
    {
        self.loaded
    }
}

/// One of the two channels of the output.
#[derive(Clone, Copy, Debug, PartialEq, Eq, Structural)]
pub enum Channel {
    A,
    B,
}

/// Something to do with an open output.
#[derive(Debug, PartialEq, Eq)]
pub enum SinkOp {
    Clear(Channel),
    /// Make the channel heard, or silent.
    Volume(Channel, bool),
    /// Load a file at a position. Where it is `needed` and cannot be loaded, the
    /// rest is left out.
    Load { channel: Channel, path: String, start_ms: u64, needed: bool },
    Start(Channel),
    Pause(Channel),
    /// Pause where it plays, play where it is paused.
    Toggle(Channel),
    SeekTo(Channel, u64),
}

/// The contents of an operation.
pub enum SinkModel {
    Clear(Channel),
    Volume(Channel, bool),
    Load { channel: Channel, path: Seq<char>, start_ms: u64, needed: bool },
    Start(Channel),
    Pause(Channel),
    Toggle(Channel),
    SeekTo(Channel, u64),
}

/// The contents of an operation.
pub open spec fn sink_model(op: SinkOp) -> SinkModel {
    match op {
        SinkOp::Clear(c) => SinkModel::Clear(c),
        SinkOp::Volume(c, on) => SinkModel::Volume(c, on),
        SinkOp::Load { channel, path, start_ms, needed } => SinkModel::Load {
            channel,
            path: path@,
            start_ms,
            needed,
        },
        SinkOp::Start(c) => SinkModel::Start(c),
        SinkOp::Pause(c) => SinkModel::Pause(c),
        SinkOp::Toggle(c) => SinkModel::Toggle(c),
        SinkOp::SeekTo(c, ms) => SinkModel::SeekTo(c, ms),
    }
}

/// The contents of operations.
pub open spec fn ops_view(ops: Seq<SinkOp>) -> Seq<SinkModel> {
    Seq::new(ops.len(), |i: int| sink_model(ops[i]))
}

/// What a command does with an open output; `b_heard` says which of a pair is.
pub open spec fn ops_of(cmd: CmdModel, b_heard: bool) -> Seq<SinkModel> {
    match cmd {
        CmdModel::Play { path, start_ms, paused, .. } => seq![
            SinkModel::Clear(Channel::B),
            SinkModel::Volume(Channel::A, true),
            SinkModel::Load { channel: Channel::A, path, start_ms, needed: true },
            SinkModel::Start(Channel::A),
        ] + if paused {
            seq![SinkModel::Pause(Channel::A)]
        } else {
            Seq::empty()
        },
        CmdModel::PlayPair { path_a, path_b, start_ms, .. } => seq![
            SinkModel::Load { channel: Channel::A, path: path_a, start_ms, needed: false },
            SinkModel::Load { channel: Channel::B, path: path_b, start_ms, needed: false },
            SinkModel::Volume(Channel::A, !b_heard),
            SinkModel::Volume(Channel::B, b_heard),
            SinkModel::Start(Channel::A),
            SinkModel::Start(Channel::B),
        ],
        CmdModel::Flip => seq![
            SinkModel::Volume(Channel::A, !b_heard),
            SinkModel::Volume(Channel::B, b_heard),
        ],
        CmdModel::TogglePause => seq![
            SinkModel::Toggle(Channel::A),
            SinkModel::Toggle(Channel::B),
        ],
        CmdModel::Seek(ms) => seq![
            SinkModel::SeekTo(Channel::A, ms),
            SinkModel::SeekTo(Channel::B, ms),
        ],
        CmdModel::Stop => seq![SinkModel::Clear(Channel::A), SinkModel::Clear(Channel::B)],
    }
}

/// What the audio thread knows: whether it holds an output, and whether a file was
/// really loaded into the first channel.
#[derive(Clone, Copy, Debug, PartialEq, Eq, Structural)]
pub struct Deck {
    pub open: bool,
    pub has_a: bool,
}

/// The command loads files.
pub open spec fn loads(cmd: CmdModel) -> bool {
    cmd is Play || cmd is PlayPair
}

impl Deck {
    /// No output is held while nothing was ever played.
    pub fn new() -> (r: Self)
        ensures
            r == (Deck { open: false, has_a: false }),
    {
        Deck { open: false, has_a: false }
    }

    /// Whether the output has to be opened before a command is carried out: it is
    /// not there, or it died, and a file is to be loaded.
    pub fn must_open(&self, cmd: &Cmd, dead: bool) -> (r: bool)
        ensures
            r == (loads(cmd@) && (!self.open || dead)),
    {
        match cmd {
            Cmd::Play { .. } | Cmd::PlayPair { .. } => !self.open || dead,
            _ => false,
        }
    }

    /// What a command does with an open output.
    pub fn ops(cmd: &Cmd, b_heard: bool) -> (r: Vec<SinkOp>)
        ensures
            ops_view(r@) == ops_of(cmd@, b_heard),
    {
        let mut ops: Vec<SinkOp> = Vec::new();
        match cmd {
            Cmd::Play { path, start_ms, paused, .. } => {
                ops.push(SinkOp::Clear(Channel::B));
                ops.push(SinkOp::Volume(Channel::A, true));
                ops.push(
                    SinkOp::Load {
                        channel: Channel::A,
                        path: path.clone(),
                        start_ms: *start_ms,
                        needed: true,
                    },
                );
                ops.push(SinkOp::Start(Channel::A));
                if *paused {
                    ops.push(SinkOp::Pause(Channel::A));
                }
            },
            Cmd::PlayPair { path_a, path_b, start_ms, .. } => {
                ops.push(
                    SinkOp::Load {
                        channel: Channel::A,
                        path: path_a.clone(),
                        start_ms: *start_ms,
                        needed: false,
                    },
                );
                ops.push(
                    SinkOp::Load {
                        channel: Channel::B,
                        path: path_b.clone(),
                        start_ms: *start_ms,
                        needed: false,
                    },
                );
                ops.push(SinkOp::Volume(Channel::A, !b_heard));
                ops.push(SinkOp::Volume(Channel::B, b_heard));
                ops.push(SinkOp::Start(Channel::A));
                ops.push(SinkOp::Start(Channel::B));
            },
            Cmd::Flip => {
                ops.push(SinkOp::Volume(Channel::A, !b_heard));
                ops.push(SinkOp::Volume(Channel::B, b_heard));
            },
            Cmd::TogglePause => {
                ops.push(SinkOp::Toggle(Channel::A));
                ops.push(SinkOp::Toggle(Channel::B));
            },
            Cmd::Seek(ms) => {
                ops.push(SinkOp::SeekTo(Channel::A, *ms));
                ops.push(SinkOp::SeekTo(Channel::B, *ms));
            },
            Cmd::Stop => {
                ops.push(SinkOp::Clear(Channel::A));
                ops.push(SinkOp::Clear(Channel::B));
            },
        }
        assert(ops_view(ops@) =~= ops_of(cmd@, b_heard));
        ops
    }

    /// Takes in that a command was carried out: `open` says whether there is an
    /// output now, `loaded_a` whether the first channel got its file, `a_paused`
    /// whether that channel is paused.
    pub fn carried_out(
        &mut self,
        player: &mut Player,
        cmd: &Cmd,
        open: bool,
        loaded_a: bool,
        a_paused: bool,
    )
        ensures
            *final(self) == (Deck {
                open,
                has_a: if loads(cmd@) {
                    open && loaded_a
                } else {
                    old(self).has_a && !(cmd@ is Stop)
                },
            }),
            final(player)@ == (match cmd@ {
                CmdModel::Play { total_ms, start_ms, .. } => PlayerModel {
                    total_ms,
                    pos_ms: start_ms,
                    ..old(player)@
                },
                CmdModel::PlayPair { total_ms, start_ms, .. } => PlayerModel {
                    total_ms,
                    pos_ms: start_ms,
                    ..old(player)@
                },
                CmdModel::TogglePause => if open {
                    PlayerModel { playing: !a_paused, ..old(player)@ }
                } else {
                    old(player)@
                },
                _ => old(player)@,
            }),
    {
        self.open = open;
        match cmd {
            Cmd::Play { total_ms, start_ms, .. } => {
                self.has_a = open && loaded_a;
                player.total_ms = *total_ms;
                player.pos_ms = *start_ms;
            },
            Cmd::PlayPair { total_ms, start_ms, .. } => {
                self.has_a = open && loaded_a;
                player.total_ms = *total_ms;
                player.pos_ms = *start_ms;
            },
            Cmd::TogglePause => {
                if open {
                    player.playing = !a_paused;
                }
            },
            Cmd::Stop => {
                self.has_a = false;
            },
            _ => {},
        }
    }

    /// What happens at the end of each round: a dead output is dropped, and else
    /// the position is taken over and a track that ran out is unloaded. Returns
    /// whether the output is to be dropped.
    pub fn tick(&mut self, player: &mut Player, dead: bool, pos_ms: u64, a_empty: bool) -> (r: bool)
        ensures
            r == (dead && old(self).open),
            *final(self) == (if r {
                Deck { open: false, has_a: false }
            } else if old(self).open && old(player)@.loaded && a_empty {
                Deck { has_a: false, ..*old(self) }
            } else {
                *old(self)
            }),
            final(player)@ == (if r {
                PlayerModel { playing: false, ..old(player)@ }
            } else if old(self).open && old(player)@.loaded {
                let here = PlayerModel { pos_ms, ..old(player)@ };
                if old(self).has_a && a_empty {
                    here.ended()
                } else {
                    here
                }
            } else {
                old(player)@
            }),
    {
        if dead && self.open {
            self.open = false;
            self.has_a = false;
            player.playing = false;
            return true;
        }
        if self.open && player.loaded {
            player.pos_ms = pos_ms;
            if self.has_a && a_empty {
                self.has_a = false;
                player.loaded = false;
                player.playing = false;
                player.paired = false;
                player.hex_a = None;
                player.hex_b = None;
            }
        }
        false
    }
}

/// Swapping twice is as if nothing was swapped.
pub proof fn law_flipping_twice_undoes_it(m: PlayerModel)
    ensures
        m.flipped().flipped() == m,
{
}

/// Playback never starts past the end of the file.
pub proof fn law_the_start_is_within_the_file(
    m: PlayerModel,
    hex: Seq<char>,
    total_ms: u64,
    start_ms: u64,
    paused: bool,
)
    ensures
        m.loading(hex, total_ms, start_ms, paused).pos_ms <= total_ms,
        m.loading(hex, total_ms, start_ms, paused).playing == !paused,
        m.loading(hex, total_ms, start_ms, paused).heard() == Some(hex),
{
}

/// A loaded file is the only one there is, from a position inside it, and all that
/// was loaded before is gone.
pub proof fn law_a_loaded_file_is_the_only_one(
    m: PlayerModel,
    hex: Seq<char>,
    total_ms: u64,
    start_ms: u64,
    paused: bool,
)
    ensures
        ({
            let r = m.loading(hex, total_ms, start_ms, paused);
            &&& r.hex_a == Some(hex)
            &&& r.hex_b is None
            &&& !r.paired
            &&& !r.active_b
            &&& r.loaded
            &&& r.total_ms == total_ms
            &&& start_ms <= total_ms ==> r.pos_ms == start_ms
            &&& start_ms > total_ms ==> r.pos_ms == total_ms
            &&& r.playing <==> !paused
        }),
{
}

/// Stopping unloads and goes back to the start; a track that ends unloads and stays
/// where it is. Neither plays on.
pub proof fn law_an_end_unloads(m: PlayerModel)
    ensures
        ({
            let r = m.stopped();
            &&& r.hex_a is None && r.hex_b is None
            &&& !r.paired && !r.loaded && !r.playing
            &&& r.pos_ms == 0
            &&& r.total_ms == m.total_ms
            &&& r.active_b == m.active_b
        }),
        ({
            let r = m.ended();
            &&& r.hex_a is None && r.hex_b is None
            &&& !r.paired && !r.loaded && !r.playing
            &&& r.pos_ms == m.pos_ms
            &&& r.total_ms == m.total_ms
            &&& r.active_b == m.active_b
        }),
{
}

/// The file that is heard is the second of a pair after a swap and the first before
/// it; nothing else changes with a swap.
pub proof fn law_a_swap_changes_what_is_heard(m: PlayerModel)
    ensures
        !m.active_b ==> m.heard() == m.hex_a && m.flipped().heard() == m.hex_b,
        m.active_b ==> m.heard() == m.hex_b && m.flipped().heard() == m.hex_a,
        m.flipped().hex_a == m.hex_a,
        m.flipped().hex_b == m.hex_b,
        m.flipped().pos_ms == m.pos_ms,
        m.flipped().playing == m.playing,
        m.flipped().loaded == m.loaded,
{
}

/// The earlier of two positions is one of them and neither is before it.
pub proof fn law_the_earlier_position(a: u64, b: u64)
    ensures
        earlier(a, b) <= a,
        earlier(a, b) <= b,
        earlier(a, b) == a || earlier(a, b) == b,
{
}

/// Of a pair exactly one channel is ever heard, and it is the one that was asked for;
/// a single file is heard on its own, with the other channel cleared.
pub proof fn law_one_channel_is_heard(cmd: CmdModel, b_heard: bool)
    ensures
        cmd is PlayPair || cmd is Flip ==> {
            let ops = ops_of(cmd, b_heard);
            &&& ops.contains(SinkModel::Volume(Channel::A, !b_heard))
            &&& ops.contains(SinkModel::Volume(Channel::B, b_heard))
            &&& !ops.contains(SinkModel::Volume(Channel::A, b_heard))
            &&& !ops.contains(SinkModel::Volume(Channel::B, !b_heard))
        },
        cmd is Play ==> {
            let ops = ops_of(cmd, b_heard);
            &&& ops.contains(SinkModel::Volume(Channel::A, true))
            &&& ops.contains(SinkModel::Clear(Channel::B))
        },
{
    let ops = ops_of(cmd, b_heard);
    if cmd is PlayPair {
        assert(ops[2] == SinkModel::Volume(Channel::A, !b_heard));
        assert(ops[3] == SinkModel::Volume(Channel::B, b_heard));
    } else if cmd is Flip {
        assert(ops[0] == SinkModel::Volume(Channel::A, !b_heard));
        assert(ops[1] == SinkModel::Volume(Channel::B, b_heard));
    } else if cmd is Play {
        assert(ops[1] == SinkModel::Volume(Channel::A, true));
        assert(ops[0] == SinkModel::Clear(Channel::B));
    }
}

/// A file is loaded into its channel before that channel starts, from the position
/// that was asked for; a held file is paused after it has started. Of a pair the first
/// file goes to the first channel and the second to the second.
pub proof fn law_files_are_loaded_before_they_start(cmd: CmdModel, b_heard: bool)
    ensures
        cmd matches CmdModel::Play { path, total_ms, start_ms, paused } ==> {
            let ops = ops_of(cmd, b_heard);
            &&& ops[2] == (SinkModel::Load { channel: Channel::A, path, start_ms, needed: true })
            &&& ops[3] == SinkModel::Start(Channel::A)
            &&& paused ==> ops.len() == 5 && ops[4] == SinkModel::Pause(Channel::A)
            &&& !paused ==> ops.len() == 4
        },
        cmd matches CmdModel::PlayPair { path_a, path_b, total_ms, start_ms } ==> {
            let ops = ops_of(cmd, b_heard);
            &&& ops.len() == 6
            &&& ops[0] == (SinkModel::Load {
                channel: Channel::A,
                path: path_a,
                start_ms,
                needed: false,
            })
            &&& ops[1] == (SinkModel::Load {
                channel: Channel::B,
                path: path_b,
                start_ms,
                needed: false,
            })
            &&& ops[4] == SinkModel::Start(Channel::A)
            &&& ops[5] == SinkModel::Start(Channel::B)
        },
        loads(cmd) <==> exists|i: int|
            0 <= i < ops_of(cmd, b_heard).len() && #[trigger] ops_of(cmd, b_heard)[i] is Load,
{
    let ops = ops_of(cmd, b_heard);
    if cmd is Play {
        assert(ops[2] is Load);
    } else if cmd is PlayPair {
        assert(ops[0] is Load);
    }
}

/// Pausing, seeking and stopping do the same to both channels, so that a pair stays in
/// step.
pub proof fn law_a_pair_stays_in_step(ms: u64, b_heard: bool)
    ensures
        ops_of(CmdModel::TogglePause, b_heard) == seq![
            SinkModel::Toggle(Channel::A),
            SinkModel::Toggle(Channel::B),
        ],
        ops_of(CmdModel::Seek(ms), b_heard) == seq![
            SinkModel::SeekTo(Channel::A, ms),
            SinkModel::SeekTo(Channel::B, ms),
        ],
        ops_of(CmdModel::Stop, b_heard) == seq![
            SinkModel::Clear(Channel::A),
            SinkModel::Clear(Channel::B),
        ],
{
}

/// Nothing is loaded, playing or heard at first.
pub proof fn law_a_new_player_is_silent()
    ensures
        ({
            let m = PlayerModel::silent();
            &&& !m.loaded && !m.playing && !m.paired && !m.active_b
            &&& m.heard() is None
            &&& m.pos_ms == 0 && m.total_ms == 0
        }),
{
}

/// What is handed to the output is what the operation holds.
pub proof fn law_operations_are_handed_on(ops: Seq<SinkOp>, i: int)
    requires
        0 <= i < ops.len(),
    ensures
        ops_view(ops).len() == ops.len(),
        ops[i] matches SinkOp::Clear(c) ==> ops_view(ops)[i] == SinkModel::Clear(c),
        ops[i] matches SinkOp::Volume(c, on) ==> ops_view(ops)[i] == SinkModel::Volume(c, on),
        ops[i] matches SinkOp::Load { channel, path, start_ms, needed } ==> ops_view(ops)[i] == (
        SinkModel::Load { channel, path: path@, start_ms, needed }),
        ops[i] matches SinkOp::Start(c) ==> ops_view(ops)[i] == SinkModel::Start(c),
        ops[i] matches SinkOp::Pause(c) ==> ops_view(ops)[i] == SinkModel::Pause(c),
        ops[i] matches SinkOp::Toggle(c) ==> ops_view(ops)[i] == SinkModel::Toggle(c),
        ops[i] matches SinkOp::SeekTo(c, ms) ==> ops_view(ops)[i] == SinkModel::SeekTo(c, ms),
{
}

} // verus!
