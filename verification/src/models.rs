//! The data that the dashboard exchanges: the theme, the hardware figures,
//! the uptime, the setup form and the replies of the web front end.
use vstd::prelude::*;
use crate::text::{str_equal, trim_text, trimmed};

verus! {

/// The colour scheme of the dashboard.
#[derive(Clone, Copy, PartialEq, Eq, Debug, Structural)]
pub enum Theme {
    Light,
    Dark,
}

/// The name under which a theme is written and read: `light` or `dark`.
pub open spec fn theme_name(t: Theme) -> Seq<char> {
    match t {
        Theme::Light => "light"@,
        Theme::Dark => "dark"@,
    }
}

/// The theme that a name stands for, if any.
pub open spec fn theme_named(s: Seq<char>) -> Option<Theme> {
    if s == "light"@ {
        Some(Theme::Light)
    } else if s == "dark"@ {
        Some(Theme::Dark)
    } else {
        None
    }
}

impl Theme {
    /// The theme's name: `light` or `dark`.
    pub fn to_string(&self) -> (r: String)
        ensures
            r@ == theme_name(*self),
    {
        match self {
            Theme::Light => String::from_str("light"),
            Theme::Dark => String::from_str("dark"),
        }
    }

    /// The theme named `s`; only the exact names `light` and `dark` are accepted.
    pub fn parse(s: &str) -> (r: Result<Theme, ()>)
        ensures
            match r {
                Ok(t) => theme_named(s@) == Some(t),
                Err(_) => theme_named(s@) is None,
            },
    {
        if str_equal(s, "light") {
            Ok(Theme::Light)
        } else if str_equal(s, "dark") {
            Ok(Theme::Dark)
        } else {
            Err(())
        }
    }
}

impl core::str::FromStr for Theme {
    type Err = ();

    fn from_str(s: &str) -> (r: Result<Theme, ()>)
        ensures
            match r {
                Ok(t) => theme_named(s@) == Some(t),
                Err(_) => theme_named(s@) is None,
            },
    {
        Theme::parse(s)
    }
}

/// Reading a theme's name gives the theme back, and a name that is read as a
/// theme is that theme's name.
pub proof fn theme_name_round_trip(t: Theme, s: Seq<char>)
    ensures
        theme_named(theme_name(t)) == Some(t),
        theme_named(s) == Some(t) ==> s == theme_name(t),
{
    reveal_strlit("light");
    reveal_strlit("dark");
    assert("light"@ != "dark"@) by {
        assert("light"@.len() != "dark"@.len());
    }
}

/// Current use of processor, memory and storage, in percent.
#[derive(Clone, Debug)]
pub struct UsageDto {
    pub processor: i32,
    pub ram: i32,
    pub storage: i32,
}

/// What the dashboard shows of the processor.
#[derive(Clone, Debug)]
pub struct ProcessorDto {
    pub name: String,
    pub core_count: String,
    pub clock_speed: String,
    pub bit_depth: String,
}

/// What the dashboard shows of the machine.
#[derive(Clone, Debug)]
pub struct MachineDto {
    pub operating_system: String,
    pub total_ram: String,
    pub ram_type_or_os_bit_depth: String,
    pub proc_count: String,
}

/// What the dashboard shows of the storage.
#[derive(Clone, Debug)]
pub struct StorageDto {
    pub main_storage: String,
    pub total: String,
    pub disk_count: String,
    pub swap_amount: String,
}

/// The static hardware information of the dashboard.
#[derive(Clone, Debug)]
pub struct InfoDto {
    pub processor: ProcessorDto,
    pub machine: MachineDto,
    pub storage: StorageDto,
}

/// The time since boot, each part as at least two digits.
#[derive(Clone, Debug)]
pub struct UptimeDto {
    pub days: String,
    pub hours: String,
    pub minutes: String,
    pub seconds: String,
}

/// The settings that the setup form sends and the setup file keeps.
#[derive(Clone, Debug)]
pub struct SetupDto {
    pub server_name: String,
    pub theme: Theme,
    pub port: u16,
    pub enable_fog: bool,
    pub background_color: String,
}

/// The contents of a `SetupDto`.
pub struct SetupView {
    pub server_name: Seq<char>,
    pub theme: Theme,
    pub port: u16,
    pub enable_fog: bool,
    pub background_color: Seq<char>,
}

impl View for SetupDto {
    type V = SetupView;

    open spec fn view(&self) -> SetupView {
        SetupView {
            server_name: self.server_name@,
            theme: self.theme,
            port: self.port,
            enable_fog: self.enable_fog,
            background_color: self.background_color@,
        }
    }
}

/// A reply of the web front end that carries a message.
#[derive(Clone, Debug)]
pub struct ResponseDto {
    pub message: String,
}

/// A reply of the web front end that reports a failure.
#[derive(Clone, Debug)]
pub struct ErrorDto {
    pub message: String,
    pub exception: String,
    pub timestamp: String,
}

/// Whether `c` is an ASCII hexadecimal digit.
pub open spec fn is_hex_digit(c: char) -> bool {
    let v = c as u32;
    ||| 48 <= v <= 57
    ||| 65 <= v <= 70
    ||| 97 <= v <= 102
}

/// Whether `s` is a colour written `#RRGGBB`.
pub open spec fn is_hex_color(s: Seq<char>) -> bool {
    &&& s.len() == 7
    &&& s[0] == '#'
    &&& forall|i: int| 1 <= i < 7 ==> is_hex_digit(#[trigger] s[i])
}

/// The most characters that a server's name may have, once trimmed.
pub const MAX_SERVER_NAME_CHARS: usize = 32;

/// The lowest port that the setup accepts.
pub const MIN_PORT: u16 = 1024;

/// Why a setup is refused, if it is: the first rule it breaks, in the order
/// name not blank, name at most 32 characters once trimmed, port at least
/// 1024, background `default` or `#RRGGBB`.
pub open spec fn setup_problem(s: SetupView) -> Option<Seq<char>> {
    let name = trimmed(s.server_name);
    if name.len() == 0 {
        Some("serverName cannot be empty"@)
    } else if name.len() > MAX_SERVER_NAME_CHARS {
        Some("serverName too long"@)
    } else if s.port < MIN_PORT {
        Some("port must be in range 1024-65535"@)
    } else if s.background_color != "default"@ && !is_hex_color(s.background_color) {
        Some("backgroundColor must be \"default\" or a hex color like \"#RRGGBB\""@)
    } else {
        None
    }
}

/// A setup that passes validation has a name of 1 to 32 characters once
/// trimmed, a port of at least 1024, and a background that is `default` or a
/// colour `#RRGGBB`.
pub proof fn accepted_setup_in_bounds(s: SetupView)
    requires
        setup_problem(s) is None,
    ensures
        1 <= trimmed(s.server_name).len() <= MAX_SERVER_NAME_CHARS,
        s.port >= MIN_PORT,
        s.background_color == "default"@ || is_hex_color(s.background_color),
{
}

/// With a name of 1 to 32 characters once trimmed and a port of at least
/// 1024, a setup is accepted exactly when its background is `default`, or
/// `#` followed by six characters each of `0`-`9`, `a`-`f` or `A`-`F`.
pub proof fn background_rule(s: SetupView)
    requires
        1 <= trimmed(s.server_name).len() <= 32,
        s.port >= 1024,
    ensures
        setup_problem(s) is None <==> (s.background_color == "default"@ || (
        s.background_color.len() == 7 && s.background_color[0] == '#' && forall|i: int|
            1 <= i < 7 ==> {
                let c = (#[trigger] s.background_color[i]) as u32;
                ||| '0' as u32 <= c <= '9' as u32
                ||| 'a' as u32 <= c <= 'f' as u32
                ||| 'A' as u32 <= c <= 'F' as u32
            })),
{
}

fn char_is_hex_digit(c: char) -> (r: bool)
    ensures
        r == is_hex_digit(c),
{
    let v = c as u32;
    (48 <= v && v <= 57) || (65 <= v && v <= 70) || (97 <= v && v <= 102)
}

/// Whether `s` is a colour written `#RRGGBB`.
pub fn is_hex_color_text(s: &str) -> (r: bool)
    ensures
        r == is_hex_color(s@),
{
    if s.unicode_len() != 7 || s.get_char(0) != '#' {
        return false;
    }
    let mut i: usize = 1;
    while i < 7
        invariant
            s@.len() == 7,
            1 <= i <= 7,
            forall|k: int| 1 <= k < i ==> is_hex_digit(#[trigger] s@[k]),
        decreases 7 - i,
    {
        if !char_is_hex_digit(s.get_char(i)) {
            return false;
        }
        i = i + 1;
    }
    true
}

impl SetupDto {
    /// Checks the setup; the error is the message of the first rule broken.
    pub fn validate(&self) -> (r: Result<(), String>)
        ensures
            match r {
                Ok(()) => setup_problem(self@) is None,
                Err(m) => setup_problem(self@) == Some(m@),
            },
    {
        let name = trim_text(self.server_name.as_str());
        let count = name.as_str().unicode_len();
        if count == 0 {
            return Err(String::from_str("serverName cannot be empty"));
        }
        if count > MAX_SERVER_NAME_CHARS {
            return Err(String::from_str("serverName too long"));
        }
        if self.port < MIN_PORT {
            return Err(String::from_str("port must be in range 1024-65535"));
        }
        if !str_equal(self.background_color.as_str(), "default") {
            if !is_hex_color_text(self.background_color.as_str()) {
                return Err(
                    String::from_str(
                        "backgroundColor must be \"default\" or a hex color like \"#RRGGBB\"",
                    ),
                );
            }
        }
        Ok(())
    }
}

} // verus!
