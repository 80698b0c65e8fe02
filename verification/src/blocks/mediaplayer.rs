//! The media player: files of a playlist, one after the other.

use crate::blocks::definition;
use crate::blocks::definition::{
    BlockDefinition, DefinitionInfo, ExternalPads, MediaType, PadsInfo, PropertyType, TypeInfo,
};
use crate::blocks::plan;
use crate::blocks::plan::{BlockPlan, ElementSpec, PlanInfo, SettingInfo, SettingValue};
use crate::ids;
use crate::json;
use crate::properties;
use crate::properties::{Properties, PropertyMap, PropertyTree, PropertyValue};
use crate::text;
use vstd::prelude::*;

verus! {

// ---------------------------------------------------------------------------
// The playlist
// ---------------------------------------------------------------------------

/// What a player is doing.
pub struct MediaPlayerState {
    /// Tells the player apart from one that was built in its place.
    pub instance_id: String,
    pub playlist: Vec<String>,
    pub current_index: usize,
    pub is_paused: bool,
    pub loop_playlist: bool,
    pub block_id: String,
    pub flow_id: u128,
    /// The video of the current file is connected.
    pub video_linked: bool,
    /// The audio of the current file is connected.
    pub audio_linked: bool,
}

pub struct PlayerInfo {
    pub instance_id: Seq<char>,
    pub playlist: Seq<Seq<char>>,
    pub index: int,
    pub paused: bool,
    pub looping: bool,
    pub block_id: Seq<char>,
    pub flow_id: u128,
    pub video_linked: bool,
    pub audio_linked: bool,
}

impl View for MediaPlayerState {
    type V = PlayerInfo;

    open spec fn view(&self) -> PlayerInfo {
        PlayerInfo {
            instance_id: self.instance_id@,
            playlist: text::texts(self.playlist@),
            index: self.current_index as int,
            paused: self.is_paused,
            looping: self.loop_playlist,
            block_id: self.block_id@,
            flow_id: self.flow_id,
            video_linked: self.video_linked,
            audio_linked: self.audio_linked,
        }
    }
}

/// Why a file is not played.
pub enum PlayError {
    /// The index and how many files there are.
    OutOfRange(usize, usize),
    EmptyPlaylist,
    AtLastFile,
    AtFirstFile,
    NoFile,
}

impl PlayError {
    /// What is reported.
    pub open spec fn message(self) -> Seq<char> {
        match self {
            PlayError::OutOfRange(index, files) => "Index "@ + text::decimal(index as nat)
                + " out of range (playlist has "@ + text::decimal(files as nat) + " files)"@,
            PlayError::EmptyPlaylist => "Playlist is empty"@,
            PlayError::AtLastFile => "Already at last file"@,
            PlayError::AtFirstFile => "Already at first file"@,
            PlayError::NoFile => "No file to load"@,
        }
    }

    /// What is reported.
    pub fn to_message(&self) -> (r: String)
        ensures
            r@ == self.message(),
    {
        match self {
            PlayError::OutOfRange(index, files) => {
                let index = text::usize_text(*index);
                let files = text::usize_text(*files);
                "Index ".to_owned().concat(index.as_str()).concat(
                    " out of range (playlist has ",
                ).concat(files.as_str()).concat(" files)")
            },
            PlayError::EmptyPlaylist => "Playlist is empty".to_owned(),
            PlayError::AtLastFile => "Already at last file".to_owned(),
            PlayError::AtFirstFile => "Already at first file".to_owned(),
            PlayError::NoFile => "No file to load".to_owned(),
        }
    }
}

/// The file at an index.
pub open spec fn file_at(playlist: Seq<Seq<char>>, i: int) -> Option<Seq<char>> {
    if 0 <= i < playlist.len() {
        Some(playlist[i])
    } else {
        None
    }
}

impl PlayerInfo {
    pub open spec fn at(self, index: int) -> PlayerInfo {
        PlayerInfo { index, ..self }
    }

    /// Where the next file is: at the end of the playlist the first one, or
    /// none where the playlist is not to start over.
    pub open spec fn next_index(self) -> Result<int, PlayError> {
        if self.playlist.len() == 0 {
            Err(PlayError::EmptyPlaylist)
        } else if self.index + 1 >= self.playlist.len() {
            if self.looping {
                Ok(0)
            } else {
                Err(PlayError::AtLastFile)
            }
        } else {
            Ok(self.index + 1)
        }
    }

    /// Where the file before is: at the start of the playlist the last one, or
    /// none where the playlist is not to start over.
    pub open spec fn previous_index(self) -> Result<int, PlayError> {
        if self.playlist.len() == 0 {
            Err(PlayError::EmptyPlaylist)
        } else if self.index == 0 {
            if self.looping {
                Ok(self.playlist.len() - 1)
            } else {
                Err(PlayError::AtFirstFile)
            }
        } else {
            Ok(self.index - 1)
        }
    }

    /// Where a file is that was asked for by its index.
    pub open spec fn asked_index(self, index: usize) -> Result<int, PlayError> {
        if index >= self.playlist.len() {
            Err(PlayError::OutOfRange(index, self.playlist.len() as usize))
        } else {
            Ok(index as int)
        }
    }
}

/// The player where a file is. Where there is nowhere to go, it stays where it
/// is.
pub open spec fn moved(before: PlayerInfo, to: Result<int, PlayError>) -> PlayerInfo {
    match to {
        Ok(index) => before.at(index),
        Err(_) => before,
    }
}

/// The file to load where a player goes, or why none is.
pub open spec fn file_to_load(before: PlayerInfo, to: Result<int, PlayError>) -> Result<
    Seq<char>,
    PlayError,
> {
    match to {
        Ok(index) => match file_at(before.playlist, index) {
            Some(file) => Ok(file),
            None => Err(PlayError::NoFile),
        },
        Err(e) => Err(e),
    }
}

pub open spec fn shown(r: Result<String, PlayError>) -> Result<Seq<char>, PlayError> {
    match r {
        Ok(s) => Ok(s@),
        Err(e) => Err(e),
    }
}

impl MediaPlayerState {
    /// The current file, if any.
    pub fn current_file(&self) -> (r: Option<String>)
        ensures
            match r {
                Some(file) => file_at(self@.playlist, self@.index) == Some(file@),
                None => file_at(self@.playlist, self@.index) is None,
            },
    {
        if self.current_index < self.playlist.len() {
            Some(self.playlist[self.current_index].clone())
        } else {
            None
        }
    }

    /// How many files the playlist has.
    pub fn playlist_len(&self) -> (r: usize)
        ensures
            r == self@.playlist.len(),
    {
        self.playlist.len()
    }

    /// Sets the playlist. The current index stays.
    pub fn set_playlist(&mut self, files: Vec<String>)
        ensures
            final(self)@ == (PlayerInfo { playlist: text::texts(files@), ..old(self)@ }),
    {
        self.playlist = files;
    }

    fn load_current_file(&self) -> (r: Result<String, PlayError>)
        ensures
            match file_at(self@.playlist, self@.index) {
                Some(file) => shown(r) == Ok::<Seq<char>, PlayError>(file),
                None => shown(r) == Err::<Seq<char>, PlayError>(PlayError::NoFile),
            },
    {
        match self.current_file() {
            Some(file) => Ok(file),
            None => Err(PlayError::NoFile),
        }
    }

    /// Goes to the file at an index. Gives the file to load.
    pub fn goto(&mut self, index: usize) -> (r: Result<String, PlayError>)
        ensures
            final(self)@ == moved(old(self)@, old(self)@.asked_index(index)),
            shown(r) == file_to_load(old(self)@, old(self)@.asked_index(index)),
    {
        if index >= self.playlist.len() {
            return Err(PlayError::OutOfRange(index, self.playlist.len()));
        }
        self.current_index = index;
        self.load_current_file()
    }

    /// Goes to the next file. Gives the file to load.
    pub fn next(&mut self) -> (r: Result<String, PlayError>)
        ensures
            final(self)@ == moved(old(self)@, old(self)@.next_index()),
            shown(r) == file_to_load(old(self)@, old(self)@.next_index()),
    {
        let files: usize = self.playlist.len();
        if files == 0 {
            return Err(PlayError::EmptyPlaylist);
        }
        if self.current_index >= files - 1 {
            if !self.loop_playlist {
                return Err(PlayError::AtLastFile);
            }
            self.current_index = 0;
        } else {
            self.current_index = self.current_index + 1;
        }
        self.load_current_file()
    }

    /// Goes to the file before. Gives the file to load.
    pub fn previous(&mut self) -> (r: Result<String, PlayError>)
        ensures
            final(self)@ == moved(old(self)@, old(self)@.previous_index()),
            shown(r) == file_to_load(old(self)@, old(self)@.previous_index()),
    {
        let files: usize = self.playlist.len();
        if files == 0 {
            return Err(PlayError::EmptyPlaylist);
        }
        if self.current_index == 0 {
            if !self.loop_playlist {
                return Err(PlayError::AtFirstFile);
            }
            self.current_index = files - 1;
        } else {
            self.current_index = self.current_index - 1;
        }
        self.load_current_file()
    }

    /// A file is about to be loaded: what it holds has to be connected anew.
    pub fn begin_load(&mut self)
        ensures
            final(self)@ == (PlayerInfo {
                video_linked: false,
                audio_linked: false,
                ..old(self)@
            }),
    {
        self.video_linked = false;
        self.audio_linked = false;
    }

    /// Playing began.
    pub fn started(&mut self)
        ensures
            final(self)@ == (PlayerInfo { paused: false, ..old(self)@ }),
    {
        self.is_paused = false;
    }

    /// Playing was paused.
    pub fn paused(&mut self)
        ensures
            final(self)@ == (PlayerInfo { paused: true, ..old(self)@ }),
    {
        self.is_paused = true;
    }

    /// Whether to pause for a seek and to go on after it.
    pub fn pauses_for_seek(&self) -> (r: bool)
        ensures
            r == !self@.paused,
    {
        !self.is_paused
    }

    /// What the player is doing, in a word.
    pub fn state_string(&self) -> (r: String)
        ensures
            r@ == if self@.paused {
                "paused"@
            } else if self@.playlist.len() == 0 {
                "stopped"@
            } else {
                "playing"@
            },
    {
        if self.is_paused {
            "paused".to_owned()
        } else if self.playlist.len() == 0 {
            "stopped".to_owned()
        } else {
            "playing".to_owned()
        }
    }
}

/// With a playlist that starts over, going on and going back undo each other.
pub proof fn back_undoes_on(s: PlayerInfo)
    requires
        s.looping,
        0 <= s.index < s.playlist.len(),
    ensures
        s.next_index() matches Ok(i) && s.at(i).previous_index() == Ok::<int, PlayError>(s.index),
        s.previous_index() matches Ok(i) && s.at(i).next_index() == Ok::<int, PlayError>(s.index),
{
}

/// Where a player goes there is a file, as long as its playlist is not made
/// shorter behind its back.
pub proof fn moves_lead_to_files(s: PlayerInfo, index: usize)
    requires
        0 <= s.index < s.playlist.len(),
    ensures
        s.next_index() matches Ok(i) ==> file_at(s.playlist, i) is Some,
        s.previous_index() matches Ok(i) ==> file_at(s.playlist, i) is Some,
        s.asked_index(index) matches Ok(i) ==> file_at(s.playlist, i) is Some,
{
}

/// What a file is played from: addresses as they are, and paths as addresses of
/// files, in full where the path could be resolved.
pub open spec fn file_uri(file: Seq<char>, resolved: Option<Seq<char>>) -> Seq<char> {
    if text::has_prefix(file, "file://"@) || text::has_prefix(file, "http://"@)
        || text::has_prefix(file, "https://"@) {
        file
    } else {
        match resolved {
            Some(path) => "file://"@ + path,
            None => "file://"@ + file,
        }
    }
}

/// Whether a file is named by an address already.
pub fn is_address(file: &str) -> (r: bool)
    ensures
        r == (text::has_prefix(file@, "file://"@) || text::has_prefix(file@, "http://"@)
            || text::has_prefix(file@, "https://"@)),
{
    text::starts_with(file, "file://") || text::starts_with(file, "http://")
        || text::starts_with(file, "https://")
}

/// What a file is played from, given the full path where it could be resolved.
pub fn uri_of_file(file: &str, resolved: Option<String>) -> (r: String)
    ensures
        r@ == file_uri(file@, definition::optional(resolved)),
{
    if is_address(file) {
        return file.to_owned();
    }
    match resolved {
        Some(path) => "file://".to_owned().concat(path.as_str()),
        None => "file://".to_owned().concat(file),
    }
}

// ---------------------------------------------------------------------------
// Registry
// ---------------------------------------------------------------------------

/// Which player: the flow and the block.
pub struct MediaPlayerKey {
    pub flow_id: u128,
    pub block_id: String,
}

pub type PlayerKey = (u128, Seq<char>);

impl View for MediaPlayerKey {
    type V = PlayerKey;

    open spec fn view(&self) -> PlayerKey {
        (self.flow_id, self.block_id@)
    }
}

impl MediaPlayerKey {
    fn same(&self, other: &MediaPlayerKey) -> (r: bool)
        ensures
            r == (self@ == other@),
    {
        self.flow_id == other.flow_id && text::same(
            self.block_id.as_str(),
            other.block_id.as_str(),
        )
    }
}

/// The players of an instance.
pub struct MediaPlayerRegistry<T> {
    pub players: Vec<(MediaPlayerKey, T)>,
}

/// The first player from `i` on with the key.
pub open spec fn player_from<T>(players: Seq<(MediaPlayerKey, T)>, key: PlayerKey, i: int) -> Option<
    int,
>
    decreases players.len() - i,
{
    if i >= players.len() {
        None
    } else if players[i].0@ == key {
        Some(i)
    } else {
        player_from(players, key, i + 1)
    }
}

impl<T> MediaPlayerRegistry<T> {
    /// No key is there twice.
    pub open spec fn keys_differ(self) -> bool {
        forall|i: int, j: int|
            0 <= i < j < self.players@.len() ==> (#[trigger] self.players@[i]).0@ != (
            #[trigger] self.players@[j]).0@
    }

    /// The player with a key.
    pub open spec fn player(self, key: PlayerKey) -> Option<T> {
        match player_from(self.players@, key, 0) {
            Some(i) => Some(self.players@[i].1),
            None => None,
        }
    }

    pub fn new() -> (r: MediaPlayerRegistry<T>)
        ensures
            r.keys_differ(),
            forall|key: PlayerKey| #[trigger] r.player(key) is None,
    {
        MediaPlayerRegistry { players: Vec::new() }
    }

    fn position(&self, key: &MediaPlayerKey) -> (r: Option<usize>)
        ensures
            match r {
                Some(i) => player_from(self.players@, key@, 0) == Some(i as int) && i
                    < self.players.len(),
                None => player_from(self.players@, key@, 0) is None,
            },
    {
        let mut i: usize = 0;
        while i < self.players.len()
            invariant
                i <= self.players.len(),
                player_from(self.players@, key@, i as int) == player_from(
                    self.players@,
                    key@,
                    0,
                ),
            decreases self.players.len() - i,
        {
            if self.players[i].0.same(key) {
                return Some(i);
            }
            i += 1;
        }
        None
    }

    /// Adds a player, in place of the one that had its key, if any.
    pub fn register(&mut self, key: MediaPlayerKey, state: T)
        requires
            old(self).keys_differ(),
        ensures
            final(self).keys_differ(),
            forall|k: PlayerKey| #[trigger]
                final(self).player(k) == if k == key@ {
                    Some(state)
                } else {
                    old(self).player(k)
                },
    {
        let ghost before = self.players@;
        let ghost added = (key, state);
        match self.position(&key) {
            Some(i) => {
                self.players.set(i, (key, state));
                proof {
                    lemma_player_from(before, added.0@, 0);
                    assert forall|k: PlayerKey| #[trigger]
                        self.player(k) == if k == added.0@ {
                            Some(added.1)
                        } else {
                            old(self).player(k)
                        } by {
                        lemma_replaced(before, added, i as int, k, 0);
                        lemma_player_from(before, k, 0);
                    }
                }
            },
            None => {
                self.players.push((key, state));
                proof {
                    lemma_player_from(before, added.0@, 0);
                    assert forall|k: PlayerKey| #[trigger]
                        self.player(k) == if k == added.0@ {
                            Some(added.1)
                        } else {
                            old(self).player(k)
                        } by {
                        lemma_pushed(before, added, k, 0);
                    }
                }
            },
        }
    }

    /// Removes a player.
    pub fn unregister(&mut self, key: &MediaPlayerKey)
        requires
            old(self).keys_differ(),
        ensures
            final(self).keys_differ(),
            forall|k: PlayerKey| #[trigger]
                final(self).player(k) == if k == key@ {
                    None
                } else {
                    old(self).player(k)
                },
    {
        let ghost before = self.players@;
        match self.position(key) {
            Some(i) => {
                let gone = self.players.remove(i);
                proof {
                    lemma_player_from(before, key@, 0);
                    assert forall|k: PlayerKey| #[trigger]
                        self.player(k) == if k == key@ {
                            None
                        } else {
                            old(self).player(k)
                        } by {
                        lemma_removed(before, i as int, k, 0);
                        lemma_player_from(before, k, 0);
                    }
                }
            },
            None => {
                proof {
                    lemma_player_from(before, key@, 0);
                }
            },
        }
    }

    /// The player with a key.
    pub fn get(&self, key: &MediaPlayerKey) -> (r: Option<&T>)
        ensures
            match r {
                Some(state) => self.player(key@) == Some(*state),
                None => self.player(key@) is None,
            },
    {
        match self.position(key) {
            Some(i) => Some(&self.players[i].1),
            None => None,
        }
    }

    /// Whether there is a player with a key.
    pub fn contains(&self, key: &MediaPlayerKey) -> (r: bool)
        ensures
            r == (self.player(key@) is Some),
    {
        match self.position(key) {
            Some(_) => true,
            None => false,
        }
    }
}

proof fn lemma_player_from<T>(players: Seq<(MediaPlayerKey, T)>, key: PlayerKey, i: int)
    requires
        0 <= i <= players.len(),
    ensures
        player_from(players, key, i) matches Some(k) ==> i <= k < players.len()
            && players[k].0@ == key,
        player_from(players, key, i) is None ==> forall|k: int|
            i <= k < players.len() ==> (#[trigger] players[k]).0@ != key,
    decreases players.len() - i,
{
    if i < players.len() && players[i].0@ != key {
        lemma_player_from(players, key, i + 1);
    }
}

proof fn lemma_replaced<T>(
    players: Seq<(MediaPlayerKey, T)>,
    added: (MediaPlayerKey, T),
    at: int,
    key: PlayerKey,
    i: int,
)
    requires
        0 <= at < players.len(),
        0 <= i <= players.len(),
        players[at].0@ == added.0@,
    ensures
        player_from(players.update(at, added), key, i) == player_from(players, key, i),
    decreases players.len() - i,
{
    if i < players.len() {
        lemma_replaced(players, added, at, key, i + 1);
    }
}

proof fn lemma_pushed<T>(
    players: Seq<(MediaPlayerKey, T)>,
    added: (MediaPlayerKey, T),
    key: PlayerKey,
    i: int,
)
    requires
        0 <= i <= players.len(),
    ensures
        player_from(players.push(added), key, i) == match player_from(players, key, i) {
            Some(k) => Some(k),
            None => if added.0@ == key {
                Some(players.len() as int)
            } else {
                None
            },
        },
        player_from(players, key, i) matches Some(k) ==> players.push(added)[k] == players[k],
    decreases players.len() - i,
{
    lemma_player_from(players, key, i);
    if i < players.len() {
        lemma_pushed(players, added, key, i + 1);
    } else {
        assert(players.push(added)[i] == added);
        assert(player_from(players.push(added), key, i + 1) is None);
    }
}

proof fn lemma_removed<T>(players: Seq<(MediaPlayerKey, T)>, at: int, key: PlayerKey, i: int)
    requires
        0 <= at < players.len(),
        0 <= i < players.len(),
        forall|a: int, b: int|
            0 <= a < b < players.len() ==> (#[trigger] players[a]).0@ != (
            #[trigger] players[b]).0@,
    ensures
        i <= at ==> player_from(players.remove(at), key, i) == match player_from(players, key, i) {
            Some(k) => if k == at {
                None
            } else if k < at {
                Some(k)
            } else {
                Some(k - 1)
            },
            None => None,
        },
        i > at ==> player_from(players.remove(at), key, i - 1) == match player_from(
            players,
            key,
            i,
        ) {
            Some(k) => Some(k - 1),
            None => None,
        },
    decreases players.len() - i,
{
    let less = players.remove(at);
    lemma_player_from(players, key, i);
    if i + 1 < players.len() {
        lemma_removed(players, at, key, i + 1);
    } else {
        assert(player_from(players, key, i + 1) is None);
        assert(player_from(less, key, less.len() as int) is None);
    }
    if i == at && players[i].0@ == key {
        if let Some(k) = player_from(players, key, i + 1) {
            lemma_player_from(players, key, i + 1);
        }
    }
    if i < at {
        assert(less[i] == players[i]);
    }
    if i > at {
        assert(less[i - 1] == players[i]);
    }
}

/// Whether a timer still belongs to the player that is registered, given the
/// instance of that player.
pub fn is_current_instance(registered: Option<&str>, mine: &str) -> (r: bool)
    ensures
        r == (registered matches Some(id) && id@ == mine@),
{
    match registered {
        Some(id) => text::same(id, mine),
        None => false,
    }
}

// ---------------------------------------------------------------------------
// Events
// ---------------------------------------------------------------------------

/// Which stream of a file.
#[derive(Clone, Copy, Debug, PartialEq, Eq, Structural)]
pub enum MediaStream {
    Video,
    Audio,
}

/// What a pad that appeared is connected to: the first video and the first
/// audio of a file are.
pub open spec fn stream_for(s: PlayerInfo, caps_name: Seq<char>) -> Option<MediaStream> {
    if text::has_prefix(caps_name, "video/"@) && !s.video_linked {
        Some(MediaStream::Video)
    } else if text::has_prefix(caps_name, "audio/"@) && !s.audio_linked {
        Some(MediaStream::Audio)
    } else {
        None
    }
}

/// How far the current file has been played.
pub struct PositionEvent {
    pub flow_id: u128,
    pub block_id: String,
    pub position_ns: u64,
    pub duration_ns: u64,
    pub current_file_index: usize,
    pub total_files: usize,
}

/// What a pipeline is doing.
#[derive(Clone, Copy, Debug, PartialEq, Eq, Structural)]
pub enum PipelineState {
    Playing,
    Paused,
    Ready,
    Null,
    Pending,
}

/// What a pipeline is doing, in a word.
pub open spec fn state_word(state: PipelineState) -> Seq<char> {
    match state {
        PipelineState::Playing => "playing"@,
        PipelineState::Paused => "paused"@,
        PipelineState::Ready => "stopped"@,
        PipelineState::Null => "stopped"@,
        PipelineState::Pending => "unknown"@,
    }
}

/// That a player does something else now.
pub struct StateEvent {
    pub flow_id: u128,
    pub block_id: String,
    pub state: String,
    pub current_file: Option<String>,
}

/// What to do at the end of a file.
pub enum EndOfStream {
    /// Load the next one.
    Load(String),
    /// Tell that the player stopped.
    Stopped(StateEvent),
}

impl MediaPlayerState {
    /// What a pad with the given capabilities is to be connected to.
    pub fn stream_for_pad(&self, caps_name: &str) -> (r: Option<MediaStream>)
        ensures
            r == stream_for(self@, caps_name@),
    {
        if text::starts_with(caps_name, "video/") && !self.video_linked {
            Some(MediaStream::Video)
        } else if text::starts_with(caps_name, "audio/") && !self.audio_linked {
            Some(MediaStream::Audio)
        } else {
            None
        }
    }

    /// A pad was connected.
    pub fn linked(&mut self, stream: MediaStream)
        ensures
            final(self)@ == match stream {
                MediaStream::Video => (PlayerInfo { video_linked: true, ..old(self)@ }),
                MediaStream::Audio => (PlayerInfo { audio_linked: true, ..old(self)@ }),
            },
    {
        match stream {
            MediaStream::Video => self.video_linked = true,
            MediaStream::Audio => self.audio_linked = true,
        }
    }

    /// How far the current file has been played. What is not known counts as
    /// zero.
    pub fn position_event(&self, position: Option<u64>, duration: Option<u64>) -> (r: PositionEvent)
        ensures
            r.flow_id == self@.flow_id,
            r.block_id@ == self@.block_id,
            r.position_ns == (match position {
                Some(t) => t,
                None => 0,
            }),
            r.duration_ns == (match duration {
                Some(t) => t,
                None => 0,
            }),
            r.current_file_index == self@.index,
            r.total_files == self@.playlist.len(),
    {
        PositionEvent {
            flow_id: self.flow_id,
            block_id: self.block_id.clone(),
            position_ns: match position {
                Some(t) => t,
                None => 0,
            },
            duration_ns: match duration {
                Some(t) => t,
                None => 0,
            },
            current_file_index: self.current_index,
            total_files: self.playlist.len(),
        }
    }

    /// A pipeline does something else now.
    pub fn state_event(&self, state: PipelineState) -> (r: StateEvent)
        ensures
            r.flow_id == self@.flow_id,
            r.block_id@ == self@.block_id,
            r.state@ == state_word(state),
            definition::optional(r.current_file) == file_at(self@.playlist, self@.index),
    {
        let word = match state {
            PipelineState::Playing => "playing",
            PipelineState::Paused => "paused",
            PipelineState::Ready => "stopped",
            PipelineState::Null => "stopped",
            PipelineState::Pending => "unknown",
        };
        StateEvent {
            flow_id: self.flow_id,
            block_id: self.block_id.clone(),
            state: word.to_owned(),
            current_file: self.current_file(),
        }
    }

    /// A file was played to its end: the next one is to be loaded, or the
    /// player has stopped.
    pub fn end_of_stream(&mut self) -> (r: EndOfStream)
        ensures
            final(self)@ == moved(old(self)@, old(self)@.next_index()),
            match file_to_load(old(self)@, old(self)@.next_index()) {
                Ok(file) => r matches EndOfStream::Load(f) && f@ == file,
                Err(_) => r matches EndOfStream::Stopped(e) && e.flow_id == old(self)@.flow_id
                    && e.block_id@ == old(self)@.block_id && e.state@ == "stopped"@
                    && e.current_file is None,
            },
    {
        match self.next() {
            Ok(file) => EndOfStream::Load(file),
            Err(_) => EndOfStream::Stopped(
                StateEvent {
                    flow_id: self.flow_id,
                    block_id: self.block_id.clone(),
                    state: "stopped".to_owned(),
                    current_file: None,
                },
            ),
        }
    }
}

/// Of each file one video and one audio are connected: once a stream is, no
/// other pad is connected to it until the next file is loaded.
pub proof fn streams_are_connected_once(s: PlayerInfo, caps_name: Seq<char>)
    ensures
        s.video_linked ==> stream_for(s, caps_name) != Some(MediaStream::Video),
        s.audio_linked ==> stream_for(s, caps_name) != Some(MediaStream::Audio),
{
}

// ---------------------------------------------------------------------------
// Building
// ---------------------------------------------------------------------------

pub struct MediaPlayerBuilder;

/// The files that the properties name: a JSON list of texts, or none.
pub open spec fn playlist_under(p: PropertyMap) -> Seq<Seq<char>> {
    match properties::text_property(p, "playlist"@) {
        Some(s) => match json::json_document(s) {
            Some(tree) => match json::text_list(tree) {
                Some(files) => files,
                None => Seq::empty(),
            },
            None => Seq::empty(),
        },
        None => Seq::empty(),
    }
}

fn read_playlist(props: &Properties) -> (r: Vec<String>)
    ensures
        text::texts(r@) == playlist_under(props@),
{
    let none: Vec<String> = Vec::new();
    assert(text::texts(none@) =~= Seq::<Seq<char>>::empty());
    match props.text("playlist") {
        Some(s) => match json::parse(s.as_str()) {
            Some(document) => match document.as_texts() {
                Some(files) => files,
                None => none,
            },
            None => none,
        },
        None => none,
    }
}

/// The flow that the player belongs to; zero where none is named.
pub open spec fn flow_under(p: PropertyMap) -> u128 {
    match properties::text_property(p, "_flow_id"@) {
        Some(s) => match ids::uuid_number(s) {
            Some(n) => n,
            None => 0,
        },
        None => 0,
    }
}

fn read_flow_id(props: &Properties) -> (r: u128)
    ensures
        r == flow_under(props@),
{
    match props.text("_flow_id") {
        Some(s) => match ids::parse_uuid(s.as_str()) {
            Some(n) => n,
            None => 0,
        },
        None => 0,
    }
}

/// How often the position is told, in milliseconds.
pub open spec fn interval_under(p: PropertyMap) -> u64 {
    match text::lookup(p, "position_update_interval"@) {
        Some(PropertyTree::Int(n)) => n as u64,
        _ => 200,
    }
}

/// How often the position is told, in milliseconds.
pub fn position_update_interval(props: &Properties) -> (r: u64)
    ensures
        r == interval_under(props@),
{
    match props.get("position_update_interval") {
        Some(PropertyValue::Int(n)) => *n as u64,
        _ => 200,
    }
}

/// A player as it starts.
pub open spec fn fresh_player(
    instance: Seq<char>,
    p: PropertyMap,
    playlist: Seq<Seq<char>>,
    flow_id: u128,
    unique: Seq<char>,
) -> PlayerInfo {
    PlayerInfo {
        instance_id: unique,
        playlist,
        index: 0,
        paused: false,
        looping: properties::bool_or(p, "loop_playlist"@, true),
        block_id: instance,
        flow_id,
        video_linked: false,
        audio_linked: false,
    }
}

/// What the block is built of. The file that it starts with is set where there
/// is one.
pub open spec fn player_plan(instance: Seq<char>, uri: Option<Seq<char>>) -> PlanInfo {
    let decoder = plan::plain_element(
        plan::member(instance, "uridecodebin"@),
        "uridecodebin"@,
    );
    let videoconvert = plan::member(instance, "videoconvert"@);
    let videoscale = plan::member(instance, "videoscale"@);
    let audioconvert = plan::member(instance, "audioconvert"@);
    let audioresample = plan::member(instance, "audioresample"@);
    plan::empty_plan().add(
        match uri {
            Some(u) => decoder.with("uri"@, SettingInfo::Text(u)),
            None => decoder,
        },
    ).add(plan::plain_element(videoconvert, "videoconvert"@)).add(
        plan::plain_element(videoscale, "videoscale"@),
    ).add(plan::plain_element(audioconvert, "audioconvert"@)).add(
        plan::plain_element(audioresample, "audioresample"@),
    ).link(videoconvert, "src"@, videoscale, "sink"@).link(
        audioconvert,
        "src"@,
        audioresample,
        "sink"@,
    )
}

impl MediaPlayerBuilder {
    /// A player as it starts, with an id of its own.
    pub fn start(&self, instance_id: &str, props: &Properties) -> (r: MediaPlayerState)
        ensures
            r@ == fresh_player(
                instance_id@,
                props@,
                playlist_under(props@),
                flow_under(props@),
                r.instance_id@,
            ),
            r.instance_id@.len() == 32,
    {
        let unique = ids::random_id();
        self.start_with(instance_id, props, read_playlist(props), read_flow_id(props), unique)
    }

    /// A player as it starts, given its files, its flow and its id.
    pub fn start_with(
        &self,
        instance_id: &str,
        props: &Properties,
        playlist: Vec<String>,
        flow_id: u128,
        unique: String,
    ) -> (r: MediaPlayerState)
        ensures
            r@ == fresh_player(
                instance_id@,
                props@,
                text::texts(playlist@),
                flow_id,
                unique@,
            ),
            r.instance_id@ == unique@,
    {
        MediaPlayerState {
            instance_id: unique,
            playlist,
            current_index: 0,
            is_paused: false,
            loop_playlist: props.bool_or("loop_playlist", true),
            block_id: instance_id.to_owned(),
            flow_id,
            video_linked: false,
            audio_linked: false,
        }
    }

    /// What the block is built of, given what its first file is played from.
    pub fn build(&self, instance_id: &str, uri: Option<String>) -> (r: BlockPlan)
        ensures
            r@ == player_plan(instance_id@, definition::optional(uri)),
    {
        let decoder = plan::member_id(instance_id, "uridecodebin");
        let videoconvert = plan::member_id(instance_id, "videoconvert");
        let videoscale = plan::member_id(instance_id, "videoscale");
        let audioconvert = plan::member_id(instance_id, "audioconvert");
        let audioresample = plan::member_id(instance_id, "audioresample");
        let mut parts = BlockPlan::new();
        let mut e = ElementSpec::new(decoder.as_str(), "uridecodebin");
        match uri {
            Some(u) => e.set("uri", SettingValue::Text(u)),
            None => {},
        }
        parts.add(e);
        parts.add(ElementSpec::new(videoconvert.as_str(), "videoconvert"));
        parts.add(ElementSpec::new(videoscale.as_str(), "videoscale"));
        parts.add(ElementSpec::new(audioconvert.as_str(), "audioconvert"));
        parts.add(ElementSpec::new(audioresample.as_str(), "audioresample"));
        parts.link(videoconvert.as_str(), "src", videoscale.as_str(), "sink");
        parts.link(audioconvert.as_str(), "src", audioresample.as_str(), "sink");
        parts
    }
}

/// Every connection inside the block is between elements of the block, and
/// every pad that the block shows is a pad of one of them.
pub proof fn player_is_connected(instance: Seq<char>, uri: Option<Seq<char>>)
    ensures
        player_plan(instance, uri).links_hold(),
        player_plan(instance, uri).has_element(plan::member(instance, "videoscale"@)),
        player_plan(instance, uri).has_element(plan::member(instance, "audioresample"@)),
{
    broadcast use {plan::adding_keeps, plan::linking_keeps};

    assert(plan::empty_plan().links_hold());
}

/// No two elements of the block have the same id.
pub proof fn player_ids_differ(instance: Seq<char>, uri: Option<Seq<char>>)
    ensures
        player_plan(instance, uri).ids_differ(),
{
    let names = seq![
        "uridecodebin"@,
        "videoconvert"@,
        "videoscale"@,
        "audioconvert"@,
        "audioresample"@,
    ];
    reveal_strlit("uridecodebin");
    reveal_strlit("videoconvert");
    reveal_strlit("videoscale");
    reveal_strlit("audioconvert");
    reveal_strlit("audioresample");
    assert(names[0][0] == 'u' && names[1][0] == 'v' && names[3][0] == 'a');
    plan::lemma_names_keep_ids_apart(player_plan(instance, uri), instance, names);
}

// ---------------------------------------------------------------------------
// Definition
// ---------------------------------------------------------------------------

/// The pads of the block.
pub open spec fn player_pads() -> PadsInfo {
    definition::no_pads().output(
        definition::pad_info(None, "video_out"@, MediaType::Video, "videoscale"@, "src"@),
    ).output(
        definition::pad_info(None, "audio_out"@, MediaType::Audio, "audioresample"@, "src"@),
    )
}

/// How the block presents itself.
pub open spec fn player_definition() -> DefinitionInfo {
    definition::built_in_block(
        "builtin.media_player"@,
        "Media Player"@,
        "Plays video and audio files with playlist support. Connect video_out and audio_out to Inter Output blocks for streaming."@,
        "Inputs"@,
        player_pads(),
        definition::plain_looks(None, 30, 25),
    ).property(
        definition::block_property(
            "loop_playlist"@,
            "Loop Playlist"@,
            "Loop back to the first file when reaching the end of the playlist"@,
            TypeInfo::Bool,
            PropertyTree::Bool(true),
        ),
    ).property(
        definition::block_property(
            "position_update_interval"@,
            "Position Update Interval (ms)"@,
            "How often to broadcast position updates (lower = more responsive)"@,
            TypeInfo::Int,
            PropertyTree::Int(200),
        ),
    )
}

/// How the block presents itself.
pub fn media_player_definition() -> (r: BlockDefinition)
    ensures
        r@ == player_definition(),
{
    let mut pads = ExternalPads::none();
    pads.output(
        definition::external_pad(None, "video_out", MediaType::Video, "videoscale", "src"),
    );
    pads.output(
        definition::external_pad(None, "audio_out", MediaType::Audio, "audioresample", "src"),
    );
    let mut d = BlockDefinition::built_in(
        "builtin.media_player",
        "Media Player",
        "Plays video and audio files with playlist support. Connect video_out and audio_out to Inter Output blocks for streaming.",
        "Inputs",
        pads,
        definition::plain_ui(None, 30, 25),
    );
    d.property(
        definition::for_block(
            "loop_playlist",
            "Loop Playlist",
            "Loop back to the first file when reaching the end of the playlist",
            PropertyType::Bool,
            PropertyValue::Bool(true),
        ),
    );
    d.property(
        definition::for_block(
            "position_update_interval",
            "Position Update Interval (ms)",
            "How often to broadcast position updates (lower = more responsive)",
            PropertyType::Int,
            PropertyValue::Int(200),
        ),
    );
    d
}

/// The blocks of this kind.
pub fn get_blocks() -> (r: Vec<BlockDefinition>)
    ensures
        definition::definition_infos(r@) == seq![player_definition()],
{
    definition::only(media_player_definition())
}

} // verus!
