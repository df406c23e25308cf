//! Where a snapshot is kept between runs: the name of its backup file.
//!
//! A backup lies in the directory `.backups`, in a file named after the
//! identifier that the caller chose, made safe for a file system, with the
//! extension `.cbor`. Writing and reading the file is left to the caller.

use vstd::prelude::*;
use vstd::string::StringExecFns;
use vstd::utf8::encode_utf8;

verus! {

/// Whether a character may stand in a file name on every file system: it is
/// no separator, no wildcard, no quote and no control character.
pub open spec fn is_file_name_char(c: char) -> bool {
    &&& c != '/'
    &&& c != '?'
    &&& c != '<'
    &&& c != '>'
    &&& c != '\\'
    &&& c != ':'
    &&& c != '*'
    &&& c != '|'
    &&& c != '"'
    &&& !('\u{0}' <= c <= '\u{1f}')
    &&& !('\u{80}' <= c <= '\u{9f}')
}

/// Whether every character of a text may stand in a file name.
pub open spec fn is_file_name_text(text: Seq<char>) -> bool {
    forall|i: int| 0 <= i < text.len() ==> is_file_name_char(#[trigger] text[i])
}

/// Whether a name is one that no file system objects to as it stands: every
/// character may stand in a file name, it has more than four characters and
/// no dot, it does not end in a space, and it takes at most 255 bytes.
pub open spec fn is_untouched_name(name: Seq<char>) -> bool {
    &&& is_file_name_text(name)
    &&& name.len() > 4
    &&& forall|i: int| 0 <= i < name.len() ==> #[trigger] name[i] != '.'
    &&& name.last() != ' '
    &&& encode_utf8(name).len() <= 255
}

/// `sanitize_filename::sanitize`: the name without the characters that a
/// file system may refuse, cut to 255 bytes. What else it removes depends on
/// the platform it was built for: names reserved there, dots and spaces at
/// the end. A name that none of this touches comes back as it is.
#[verifier::external_body]
fn sanitize_name(name: &str) -> (safe: String)
    ensures
        is_file_name_text(safe@),
        encode_utf8(safe@).len() <= 255,
        is_untouched_name(name@) ==> safe@ == name@,
{
    sanitize_filename::sanitize(name)
}

/// The directory that holds the backups.
pub fn backup_directory() -> (dir: String)
    ensures
        dir@ == ".backups"@,
{
    String::from_str(".backups")
}

/// The file name for a stem that is safe already: the stem and `.cbor`.
pub fn backup_file_name_for(stem: &str) -> (file: String)
    ensures
        file@ == stem@ + ".cbor"@,
{
    String::from_str(stem).concat(".cbor")
}

/// The file name of the backup called `name`: a safe form of `name` of at
/// most 255 bytes, followed by `.cbor`. A name that needs no change is kept
/// as it is.
pub fn backup_file_name(name: &str) -> (file: String)
    ensures
        exists|stem: Seq<char>|
            is_file_name_text(stem) && encode_utf8(stem).len() <= 255 && #[trigger] (stem
                + ".cbor"@) == file@,
        is_file_name_text(file@),
        is_untouched_name(name@) ==> file@ == name@ + ".cbor"@,
{
    let stem = sanitize_name(name);
    let file = backup_file_name_for(stem.as_str());
    proof {
        reveal_strlit(".cbor");
        let ext = ".cbor"@;
        assert(ext.len() == 5);
        assert(is_file_name_text(ext)) by {
            assert(ext[0] == '.' && ext[1] == 'c' && ext[2] == 'b' && ext[3] == 'o' && ext[4] == 'r');
        }
        assert forall|i: int| 0 <= i < file@.len() implies is_file_name_char(#[trigger] file@[i]) by {
            if i < stem@.len() {
                assert(file@[i] == stem@[i]);
            } else {
                assert(file@[i] == ext[i - stem@.len()]);
            }
        }
        assert(stem@ + ".cbor"@ == file@);
    }
    file
}

} // verus!
