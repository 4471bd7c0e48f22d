//! The catalog's row types and the values the contracts speak about.
//!
//! A song and a directory row hold only plain data; their mathematical
//! values replace every string with its character sequence.

use vstd::prelude::*;

verus! {

/// The view of an optional string.
pub open spec fn opt_str(o: Option<String>) -> Option<Seq<char>> {
    match o {
        Some(s) => Some(s@),
        None => None,
    }
}

/// A copy of an optional string, made field by field so that the copy's
/// value is known.
pub fn copy_opt_string(o: &Option<String>) -> (r: Option<String>)
    ensures
        opt_str(r) == opt_str(*o),
{
    match o {
        Some(s) => Some(s.clone()),
        None => None,
    }
}

/// A catalogued song. `path` and `parent` are real paths while the row is
/// stored; queries hand out copies whose paths are virtual.
#[derive(Debug, PartialEq, Clone)]
pub struct Song {
    pub path: String,
    pub parent: String,
    pub track_number: Option<i32>,
    pub disc_number: Option<i32>,
    pub title: Option<String>,
    pub artist: Option<String>,
    pub album_artist: Option<String>,
    pub year: Option<i32>,
    pub album: Option<String>,
    pub artwork: Option<String>,
    pub duration: Option<i32>,
}

/// The mathematical value of a song row.
pub struct SongV {
    pub path: Seq<char>,
    pub parent: Seq<char>,
    pub track_number: Option<i32>,
    pub disc_number: Option<i32>,
    pub title: Option<Seq<char>>,
    pub artist: Option<Seq<char>>,
    pub album_artist: Option<Seq<char>>,
    pub year: Option<i32>,
    pub album: Option<Seq<char>>,
    pub artwork: Option<Seq<char>>,
    pub duration: Option<i32>,
}

impl View for Song {
    type V = SongV;

    open spec fn view(&self) -> SongV {
        SongV {
            path: self.path@,
            parent: self.parent@,
            track_number: self.track_number,
            disc_number: self.disc_number,
            title: opt_str(self.title),
            artist: opt_str(self.artist),
            album_artist: opt_str(self.album_artist),
            year: self.year,
            album: opt_str(self.album),
            artwork: opt_str(self.artwork),
            duration: self.duration,
        }
    }
}

impl Song {
    /// A fresh row with the same value, as a query result starts out.
    pub fn duplicate(&self) -> (r: Song)
        ensures
            r@ == self@,
    {
        Song {
            path: self.path.clone(),
            parent: self.parent.clone(),
            track_number: self.track_number,
            disc_number: self.disc_number,
            title: copy_opt_string(&self.title),
            artist: copy_opt_string(&self.artist),
            album_artist: copy_opt_string(&self.album_artist),
            year: self.year,
            album: copy_opt_string(&self.album),
            artwork: copy_opt_string(&self.artwork),
            duration: self.duration,
        }
    }
}

/// A catalogued directory. `parent` is null exactly for mount roots.
#[derive(Debug, PartialEq, Clone)]
pub struct Directory {
    pub path: String,
    pub parent: Option<String>,
    pub artist: Option<String>,
    pub year: Option<i32>,
    pub album: Option<String>,
    pub artwork: Option<String>,
    pub date_added: i32,
}

/// The mathematical value of a directory row.
pub struct DirV {
    pub path: Seq<char>,
    pub parent: Option<Seq<char>>,
    pub artist: Option<Seq<char>>,
    pub year: Option<i32>,
    pub album: Option<Seq<char>>,
    pub artwork: Option<Seq<char>>,
    pub date_added: i32,
}

impl View for Directory {
    type V = DirV;

    open spec fn view(&self) -> DirV {
        DirV {
            path: self.path@,
            parent: opt_str(self.parent),
            artist: opt_str(self.artist),
            year: self.year,
            album: opt_str(self.album),
            artwork: opt_str(self.artwork),
            date_added: self.date_added,
        }
    }
}

impl Directory {
    /// A fresh row with the same value, as a query result starts out.
    pub fn duplicate(&self) -> (r: Directory)
        ensures
            r@ == self@,
    {
        Directory {
            path: self.path.clone(),
            parent: copy_opt_string(&self.parent),
            artist: copy_opt_string(&self.artist),
            year: self.year,
            album: copy_opt_string(&self.album),
            artwork: copy_opt_string(&self.artwork),
            date_added: self.date_added,
        }
    }
}

/// One entry of a browse or search result: a directory or a song.
#[derive(Debug, PartialEq)]
pub enum CollectionFile {
    Directory(Directory),
    Song(Song),
}

/// The mathematical value of a collection entry.
pub enum CollectionFileV {
    Directory(DirV),
    Song(SongV),
}

impl View for CollectionFile {
    type V = CollectionFileV;

    open spec fn view(&self) -> CollectionFileV {
        match self {
            CollectionFile::Directory(d) => CollectionFileV::Directory(d@),
            CollectionFile::Song(s) => CollectionFileV::Song(s@),
        }
    }
}

/// The settings row that a scan reads: how long the periodic trigger
/// sleeps, and the album-art filename pattern.
#[derive(Debug, PartialEq, Clone)]
pub struct MiscSettings {
    pub index_sleep_duration_seconds: i32,
    pub index_album_art_pattern: String,
}

/// The mathematical value of the settings row.
pub struct SettingsV {
    pub index_sleep_duration_seconds: i32,
    pub index_album_art_pattern: Seq<char>,
}

impl View for MiscSettings {
    type V = SettingsV;

    open spec fn view(&self) -> SettingsV {
        SettingsV {
            index_sleep_duration_seconds: self.index_sleep_duration_seconds,
            index_album_art_pattern: self.index_album_art_pattern@,
        }
    }
}

/// The record a tag reader supplies for one audio file.
#[derive(Debug, PartialEq, Clone)]
pub struct SongTags {
    pub disc_number: Option<i32>,
    pub track_number: Option<i32>,
    pub title: Option<String>,
    pub duration: Option<i32>,
    pub artist: Option<String>,
    pub album_artist: Option<String>,
    pub album: Option<String>,
    pub year: Option<i32>,
}

/// The mathematical value of a tag record.
pub struct TagsV {
    pub disc_number: Option<i32>,
    pub track_number: Option<i32>,
    pub title: Option<Seq<char>>,
    pub duration: Option<i32>,
    pub artist: Option<Seq<char>>,
    pub album_artist: Option<Seq<char>>,
    pub album: Option<Seq<char>>,
    pub year: Option<i32>,
}

impl View for SongTags {
    type V = TagsV;

    open spec fn view(&self) -> TagsV {
        TagsV {
            disc_number: self.disc_number,
            track_number: self.track_number,
            title: opt_str(self.title),
            duration: self.duration,
            artist: opt_str(self.artist),
            album_artist: opt_str(self.album_artist),
            album: opt_str(self.album),
            year: self.year,
        }
    }
}

} // verus!
