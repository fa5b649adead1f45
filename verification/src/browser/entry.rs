//! Classification of browser rows: directories, audio files by their
//! extension, and everything else.

use vstd::prelude::*;

verus! {

/// Which pane of the browser a row belongs to.
#[derive(Debug, Clone, Copy, PartialEq, Eq, Structural)]
pub enum BrowserCategory {
    Files,
    Devices,
}

/// A browser row: a directory, a recognized audio file, or a plain file,
/// each carrying its path.
#[derive(Debug, Clone, PartialEq, Eq)]
pub enum BrowserEntry {
    Directory(String),
    Audio(String),
    File(String),
}

/// The extensions the browser previews as audio.
pub open spec fn spec_is_media_extension(ext: Seq<char>) -> bool {
    ||| ext == "wav"@
    ||| ext == "wave"@
    ||| ext == "mp3"@
    ||| ext == "ogg"@
    ||| ext == "flac"@
    ||| ext == "opus"@
}

/// Whether a file extension names a previewable audio format.
pub fn is_media_extension(ext: &String) -> (r: bool)
    ensures
        r == spec_is_media_extension(ext@),
{
    *ext == "wav".to_owned() || *ext == "wave".to_owned() || *ext == "mp3".to_owned() || *ext
        == "ogg".to_owned() || *ext == "flac".to_owned() || *ext == "opus".to_owned()
}

impl BrowserEntry {
    /// The path the entry carries, whatever its kind.
    pub open spec fn spec_path(&self) -> String {
        match *self {
            BrowserEntry::Directory(p) => p,
            BrowserEntry::Audio(p) => p,
            BrowserEntry::File(p) => p,
        }
    }

    /// The path of the filesystem object this entry shows.
    pub fn path(&self) -> (r: &String)
        ensures
            *r == self.spec_path(),
    {
        match self {
            BrowserEntry::Directory(p) => p,
            BrowserEntry::Audio(p) => p,
            BrowserEntry::File(p) => p,
        }
    }

    pub fn is_directory(&self) -> (r: bool)
        ensures
            r == (self is Directory),
    {
        match self {
            BrowserEntry::Directory(_) => true,
            _ => false,
        }
    }

    pub fn is_file(&self) -> (r: bool)
        ensures
            r == (self is File),
    {
        match self {
            BrowserEntry::File(_) => true,
            _ => false,
        }
    }

    pub fn is_audio(&self) -> (r: bool)
        ensures
            r == (self is Audio),
    {
        match self {
            BrowserEntry::Audio(_) => true,
            _ => false,
        }
    }

    /// Sorts a path into a browser entry: directories first, then audio
    /// files by their extension, then everything else. The caller supplies
    /// what only the filesystem knows — whether the path is a directory —
    /// and the file name's extension, if it has one.
    pub fn classify(path: String, is_directory: bool, extension: Option<String>) -> (r:
        BrowserEntry)
        ensures
            is_directory ==> r == BrowserEntry::Directory(path),
            !is_directory ==> match extension {
                Some(e) => if spec_is_media_extension(e@) {
                    r == BrowserEntry::Audio(path)
                } else {
                    r == BrowserEntry::File(path)
                },
                None => r == BrowserEntry::File(path),
            },
    {
        if is_directory {
            BrowserEntry::Directory(path)
        } else {
            match &extension {
                Some(e) => {
                    if is_media_extension(e) {
                        BrowserEntry::Audio(path)
                    } else {
                        BrowserEntry::File(path)
                    }
                },
                None => BrowserEntry::File(path),
            }
        }
    }
}

} // verus!
