//! The decisions of the web front end: which page the root shows, how a
//! setup request is answered, and how a static file is served.
use vstd::prelude::*;
use mime_guess::MimeGuess;
use crate::models::{setup_problem, SetupDto, SetupView, Theme};
use crate::text::{parse_unsigned, parse_unsigned_text};

verus! {

/// The setup shown when the setup file cannot be read although it was found
/// configured a moment before: the defaults, with the active port.
pub open spec fn fallback_setup(active_port: Seq<char>) -> SetupView {
    SetupView {
        server_name: "Ward"@,
        theme: Theme::Light,
        port: match parse_unsigned(active_port, 65535) {
            Some(p) => p as u16,
            None => 4000,
        },
        enable_fog: true,
        background_color: "default"@,
    }
}

/// The page at the root of the site.
pub enum IndexPage {
    /// The setup form, with the port that the server listens on and whether
    /// that port was given from outside the setup file.
    Setup { port: String, port_overridden: bool },
    /// The dashboard, drawn with these settings.
    Dashboard { setup: SetupDto },
}

/// Which page the root shows: the setup form while the dashboard is not
/// configured, else the dashboard with the configured setup, or with the
/// defaults (see `fallback_setup`) where that setup cannot be read.
pub fn index_page(
    configured: bool,
    config: Option<SetupDto>,
    active_port: &str,
    port_overridden: bool,
) -> (r: IndexPage)
    ensures
        match r {
            IndexPage::Setup { port, port_overridden: o } => !configured && port@ == active_port@
                && o == port_overridden,
            IndexPage::Dashboard { setup } => configured && setup@ == match config {
                Some(c) => c@,
                None => fallback_setup(active_port@),
            },
        },
{
    if !configured {
        return IndexPage::Setup { port: String::from_str(active_port), port_overridden };
    }
    match config {
        Some(c) => IndexPage::Dashboard { setup: c },
        None => {
            let port: u16 = match parse_unsigned_text(active_port, 65535) {
                Some(p) => p as u16,
                None => 4000,
            };
            IndexPage::Dashboard {
                setup: SetupDto {
                    server_name: String::from_str("Ward"),
                    theme: Theme::Light,
                    port,
                    enable_fog: true,
                    background_color: String::from_str("default"),
                },
            }
        },
    }
}

/// An HTTP status and the message of the reply.
pub struct Reply {
    pub status: u16,
    pub message: String,
}

/// What to do with a setup request.
pub enum SetupStep {
    /// Answer at once.
    Answer(Reply),
    /// Save the setup, then answer with `setup_saved`.
    Save,
}

/// How a setup request is handled: a configured dashboard answers 200 that it
/// is already configured; a setup that breaks a rule is answered 400 with the
/// rule's message; any other setup is saved.
pub fn setup_request(configured: bool, payload: &SetupDto) -> (r: SetupStep)
    ensures
        match r {
            SetupStep::Answer(a) => if configured {
                a.status == 200 && a.message@ == "Application already configured"@
            } else {
                a.status == 400 && setup_problem(payload@) == Some(a.message@)
            },
            SetupStep::Save => !configured && setup_problem(payload@) is None,
        },
{
    if configured {
        return SetupStep::Answer(
            Reply { status: 200, message: String::from_str("Application already configured") },
        );
    }
    match payload.validate() {
        Err(message) => SetupStep::Answer(Reply { status: 400, message }),
        Ok(()) => SetupStep::Save,
    }
}

/// The answer once a setup was saved, or failed to be saved with an error's
/// message: 200 `Settings saved correctly`, or 500 `Failed to save settings: `
/// followed by that message.
pub fn setup_saved(outcome: Result<(), String>) -> (r: Reply)
    ensures
        match outcome {
            Ok(()) => r.status == 200 && r.message@ == "Settings saved correctly"@,
            Err(e) => r.status == 500 && r.message@ == "Failed to save settings: "@ + e@,
        },
{
    match outcome {
        Ok(()) => Reply { status: 200, message: String::from_str("Settings saved correctly") },
        Err(e) => {
            let mut message = String::from_str("Failed to save settings: ");
            message.append(e.as_str());
            Reply { status: 500, message }
        },
    }
}

/// `s` without the slashes that begin it.
pub open spec fn without_leading_slashes(s: Seq<char>) -> Seq<char>
    decreases s.len(),
{
    if s.len() > 0 && s[0] == '/' {
        without_leading_slashes(s.drop_first())
    } else {
        s
    }
}

/// The name of the static file that a request's path asks for: the path
/// without its leading slashes.
pub fn asset_path(uri_path: &str) -> (r: String)
    ensures
        r@ == without_leading_slashes(uri_path@),
        r@.len() > 0 ==> r@[0] != '/',
{
    let n = uri_path.unicode_len();
    let mut i: usize = 0;
    assert(uri_path@.subrange(0, n as int) =~= uri_path@);
    while i < n && uri_path.get_char(i) == '/'
        invariant
            n == uri_path@.len(),
            i <= n,
            without_leading_slashes(uri_path@) == without_leading_slashes(
                uri_path@.subrange(i as int, n as int),
            ),
        decreases n - i,
    {
        assert(uri_path@.subrange(i as int, n as int).drop_first() =~= uri_path@.subrange(
            i + 1,
            n as int,
        ));
        i = i + 1;
    }
    let rest = uri_path.substring_char(i, n);
    assert(without_leading_slashes(rest@) == rest@) by {
        if rest@.len() > 0 {
            assert(rest@[0] == uri_path@[i as int]);
        }
    }
    String::from_str(rest)
}

#[verifier::external_type_specification]
#[verifier::external_body]
pub struct ExMimeGuess(MimeGuess);

/// The pieces of `s` between the occurrences of `sep` (one more than there
/// are occurrences).
pub open spec fn split_on(s: Seq<char>, sep: char) -> Seq<Seq<char>>
    decreases s.len(),
{
    if s.len() == 0 {
        seq![Seq::<char>::empty()]
    } else {
        let prev = split_on(s.drop_last(), sep);
        if s.last() == sep {
            prev.push(Seq::empty())
        } else {
            prev.update(prev.len() - 1, prev.last().push(s.last()))
        }
    }
}

/// The last component of a path, split at its slashes, that names a file or
/// a directory, as `Path::file_name` finds it: empty pieces and `.` are
/// passed over, and a path that ends in `..` has none.
pub open spec fn last_name(pieces: Seq<Seq<char>>) -> Option<Seq<char>>
    decreases pieces.len(),
{
    if pieces.len() == 0 {
        None
    } else if pieces.last().len() == 0 || pieces.last() == seq!['.'] {
        last_name(pieces.drop_last())
    } else if pieces.last() == seq!['.', '.'] {
        None
    } else {
        Some(pieces.last())
    }
}

/// Where the last `.` of `name` is, if there is one.
pub open spec fn last_dot(name: Seq<char>) -> Option<int>
    decreases name.len(),
{
    if name.len() == 0 {
        None
    } else if name.last() == '.' {
        Some(name.len() - 1)
    } else {
        last_dot(name.drop_last())
    }
}

/// The extension of a file's name, as `Path::extension` documents it: what
/// follows the last `.`, where there is one that is not the name's first
/// character.
pub open spec fn name_extension(name: Seq<char>) -> Option<Seq<char>> {
    match last_dot(name) {
        None => None,
        Some(i) => if i == 0 {
            None
        } else {
            Some(name.skip(i + 1))
        },
    }
}

/// The extension of a `/`-separated path, as `Path::extension` finds it.
pub open spec fn path_extension(path: Seq<char>) -> Option<Seq<char>> {
    match last_name(split_on(path, '/')) {
        Some(name) => name_extension(name),
        None => None,
    }
}

/// Whether a path reads the same under every platform's path rules: it has
/// no backslash (a separator on Windows), no colon after its first character
/// (which Windows reads as a drive prefix such as `C:`), and does not begin
/// with a slash (which Windows may read as the start of a `//server/share` or
/// `//./device` prefix).
pub open spec fn is_portable_path(path: Seq<char>) -> bool {
    &&& !path.contains('\\')
    &&& !(path.len() >= 2 && path[1] == ':')
    &&& !(path.len() > 0 && path[0] == '/')
}

/// The media types that a guess holds, in its order.
pub uninterp spec fn mime_guess_types(guess: MimeGuess) -> Seq<Seq<char>>;

/// The media types that `mime_guess` lists for an extension, in its order
/// (empty for an extension it does not know, and for the empty extension).
pub uninterp spec fn extension_media_types(ext: Seq<char>) -> Seq<Seq<char>>;

/// `c` with an ASCII capital letter made small.
pub open spec fn ascii_lower_char(c: char) -> char {
    if 65 <= c as u32 <= 90 {
        (c as u32 + 32) as char
    } else {
        c
    }
}

/// The text of the media type that `MimeGuess::first_or_octet_stream` gives
/// for a guess holding these media types: the first, with its ASCII letters
/// made small as `mime` stores it, or `application/octet-stream` for none.
pub open spec fn first_media_type(types: Seq<Seq<char>>) -> Seq<char> {
    if types.len() > 0 {
        types[0].map_values(|c: char| ascii_lower_char(c))
    } else {
        "application/octet-stream"@
    }
}

/// The media types guessed for a path: those listed for its extension, or
/// none where it has no extension.
pub open spec fn path_media_types(path: Seq<char>) -> Seq<Seq<char>> {
    match path_extension(path) {
        Some(e) => extension_media_types(e),
        None => Seq::empty(),
    }
}

/// `mime_guess::from_path`: the guess for the extension that `Path::extension`
/// finds, or an empty guess where it finds none. For a path that reads the
/// same under every platform's rules (see `is_portable_path`) that extension
/// is `path_extension`; of other paths nothing is claimed.
#[verifier::external_body]
fn mime_from_path(path: &str) -> (r: MimeGuess)
    ensures
        is_portable_path(path@) ==> mime_guess_types(r) == match path_extension(path@) {
            Some(e) => extension_media_types(e),
            None => Seq::empty(),
        },
{
    mime_guess::from_path(path)
}

/// `MimeGuess::first_or_octet_stream`: the first guessed media type, or
/// `application/octet-stream` for an empty guess, as text. The table's types
/// carry no parameters, and `mime` keeps such a type as its text with the
/// ASCII letters made small.
#[verifier::external_body]
fn mime_first_or_octet_stream(guess: &MimeGuess) -> (r: String)
    ensures
        r@ == first_media_type(mime_guess_types(*guess)),
{
    guess.first_or_octet_stream().as_ref().to_string()
}

/// How a static file is served.
pub enum StaticReply {
    /// The file is served with this content type.
    Found { content_type: String },
    /// There is no such file: 404.
    NotFound,
}

/// How the static file `path` (see `asset_path`) is served, once it is known
/// whether the site holds it: with the media type that `mime_guess` gives
/// first for its extension, `application/octet-stream` where there is none,
/// or 404.
pub fn static_reply(path: &str, found: bool) -> (r: StaticReply)
    ensures
        match r {
            StaticReply::Found { content_type } => found && (is_portable_path(path@)
                ==> content_type@ == first_media_type(path_media_types(path@))) && (
            is_portable_path(path@) && path_extension(path@) is None ==> content_type@
                == "application/octet-stream"@),
            StaticReply::NotFound => !found,
        },
{
    if found {
        let guess = mime_from_path(path);
        StaticReply::Found { content_type: mime_first_or_octet_stream(&guess) }
    } else {
        StaticReply::NotFound
    }
}

} // verus!
