//! An audio file and its tag, as the fixers see them.

use crate::text::{str_opt, string_opt, strs_of};
use vstd::prelude::*;

verus! {

/// An audio file, known by its path.
#[derive(Debug, Clone, PartialEq, Eq)]
pub struct File {
    pub path: String,
}

/// Why a file could not be used.
#[derive(Debug, Clone, Copy, PartialEq, Eq)]
pub enum FileError {
    /// The file is no audio container that is understood.
    InvalidFile,
    /// The file name is invalid.
    InvalidFileName,
    /// The file holds no tag.
    NoAvailableTag,
    /// The file holds no audio properties.
    NoAvailableAudioProperties,
}

impl File {
    /// The file at `path`.  Nothing is read yet, so this never fails.
    pub fn new(path: &str) -> (r: Result<File, FileError>)
        ensures
            r is Ok,
            r.unwrap().path@ == path@,
    {
        Ok(File { path: path.to_owned() })
    }

    /// Tells that the file's tag is stored: fields are written through as
    /// they are set, so there is never anything left to do.
    pub fn save(&self) -> (saved: bool)
        ensures
            saved,
    {
        true
    }
}

/// The fields of a tag that the fixers read and write.
#[derive(Debug, Clone, PartialEq, Eq)]
pub struct Tag {
    pub title: Option<String>,
    pub artist: Option<String>,
    pub album: Option<String>,
    /// The texts of the tag's comments, in the tag's order.
    pub comments: Vec<String>,
    pub track: Option<u32>,
}

/// What a tag holds, as sequences of characters.
pub struct TagView {
    pub title: Option<Seq<char>>,
    pub artist: Option<Seq<char>>,
    pub album: Option<Seq<char>>,
    pub comments: Seq<Seq<char>>,
    pub track: Option<u32>,
}

impl View for Tag {
    type V = TagView;

    open spec fn view(&self) -> TagView {
        TagView {
            title: string_opt(self.title),
            artist: string_opt(self.artist),
            album: string_opt(self.album),
            comments: strs_of(self.comments@),
            track: self.track,
        }
    }
}

impl Tag {
    /// A tag without any field.
    pub fn new() -> (tag: Tag)
        ensures
            tag@ == (TagView {
                title: None,
                artist: None,
                album: None,
                comments: Seq::empty(),
                track: None,
            }),
    {
        let tag = Tag { title: None, artist: None, album: None, comments: Vec::new(), track: None };
        proof {
            assert(strs_of(tag.comments@) =~= Seq::<Seq<char>>::empty());
        }
        tag
    }

    /// The track name, if there is one.
    pub fn title(&self) -> (r: Option<&str>)
        ensures
            str_opt(r) == self@.title,
    {
        match &self.title {
            Some(s) => Some(s.as_str()),
            None => None,
        }
    }

    /// Sets the track name.
    pub fn set_title(&mut self, title: &str)
        ensures
            final(self)@ == (TagView { title: Some(title@), ..old(self)@ }),
    {
        self.title = Some(title.to_owned());
    }

    /// The artist name, if there is one.
    pub fn artist(&self) -> (r: Option<&str>)
        ensures
            str_opt(r) == self@.artist,
    {
        match &self.artist {
            Some(s) => Some(s.as_str()),
            None => None,
        }
    }

    /// Sets the artist name.
    pub fn set_artist(&mut self, artist: &str)
        ensures
            final(self)@ == (TagView { artist: Some(artist@), ..old(self)@ }),
    {
        self.artist = Some(artist.to_owned());
    }

    /// The album name, if there is one.
    pub fn album(&self) -> (r: Option<&str>)
        ensures
            str_opt(r) == self@.album,
    {
        match &self.album {
            Some(s) => Some(s.as_str()),
            None => None,
        }
    }

    /// Sets the album name.
    pub fn set_album(&mut self, album: &str)
        ensures
            final(self)@ == (TagView { album: Some(album@), ..old(self)@ }),
    {
        self.album = Some(album.to_owned());
    }

    /// The text of the first comment, if there is a comment.
    pub fn comment(&self) -> (r: Option<&str>)
        ensures
            str_opt(r) == (if self@.comments.len() > 0 {
                Some(self@.comments[0])
            } else {
                None
            }),
    {
        if self.comments.len() > 0 {
            Some(self.comments[0].as_str())
        } else {
            None
        }
    }

    /// Adds a comment behind those that are there.
    pub fn add_comment(&mut self, text: &str)
        ensures
            final(self)@ == (TagView { comments: old(self)@.comments.push(text@), ..old(self)@ }),
    {
        self.comments.push(text.to_owned());
        proof {
            assert(strs_of(self.comments@) =~= strs_of(old(self).comments@).push(text@));
        }
    }

    /// The track number, if there is one.
    pub fn track(&self) -> (r: Option<u32>)
        ensures
            r == self@.track,
    {
        self.track
    }

    /// Sets the track number.
    pub fn set_track(&mut self, track: u32)
        ensures
            final(self)@ == (TagView { track: Some(track), ..old(self)@ }),
    {
        self.track = Some(track);
    }
}

/// A music file: where it is, and its tag.
#[derive(Debug, Clone, PartialEq, Eq)]
pub struct Track {
    pub path: String,
    pub tag: Tag,
}

} // verus!
