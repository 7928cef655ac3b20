//! The decisions taken when the dashboard starts: the port argument, a setup
//! given through the environment, and the port to listen on.
use vstd::prelude::*;
use crate::config::{bool_named, opt_str_view, opt_view, parse_bool, text_or};
use crate::models::{theme_named, SetupDto, SetupView, Theme};
use crate::text::{decimal, lemma_decimal_parses, parse_unsigned, parse_unsigned_text, push_decimal};

verus! {

/// The lowest port that may be asked for.
pub const LOWEST_PORT: u64 = 1024;

/// The highest port.
pub const HIGHEST_PORT: u64 = 65535;

/// What the port argument `s` gives: the port, where `s` is a number from
/// 1024 to 65535, or else the message that explains the refusal.
pub open spec fn port_argument(s: Seq<char>) -> Result<u16, Seq<char>> {
    match parse_unsigned(s, usize::MAX as nat) {
        None => Err("`"@ + s + "` isn't a valid port number"@),
        Some(p) => if LOWEST_PORT <= p <= HIGHEST_PORT {
            Ok(p as u16)
        } else {
            Err("Port not in range 1024-65535 (provided "@ + decimal(p) + ")"@)
        },
    }
}

/// Checks the port given on the command line.
pub fn port_in_range(s: &str) -> (r: Result<u16, String>)
    ensures
        match r {
            Ok(p) => port_argument(s@) == Ok::<u16, Seq<char>>(p),
            Err(m) => port_argument(s@) == Err::<u16, Seq<char>>(m@),
        },
{
    match parse_unsigned_text(s, usize::MAX as u64) {
        None => {
            let mut m = String::from_str("`");
            m.append(s);
            m.append("` isn't a valid port number");
            Err(m)
        },
        Some(p) => {
            if LOWEST_PORT <= p && p <= HIGHEST_PORT {
                Ok(p as u16)
            } else {
                let mut m = String::from_str("Port not in range 1024-65535 (provided ");
                push_decimal(&mut m, p);
                m.append(")");
                Err(m)
            }
        },
    }
}

/// A port that the command line accepts is one from 1024 to 65535.
pub proof fn accepted_port_in_range(s: Seq<char>)
    ensures
        port_argument(s) matches Ok(p) ==> LOWEST_PORT <= p <= HIGHEST_PORT,
{
}

/// The setup that the environment gives, if it names any of its five
/// entries: a missing entry takes its default, and a theme, port or flag that
/// does not parse takes its default too.
pub open spec fn environment_setup(
    name: Option<Seq<char>>,
    theme: Option<Seq<char>>,
    port: Option<Seq<char>>,
    fog: Option<Seq<char>>,
    background: Option<Seq<char>>,
) -> Option<SetupView> {
    if name is None && theme is None && port is None && fog is None && background is None {
        None
    } else {
        Some(
            SetupView {
                server_name: text_or(name, "Ward"@),
                theme: match theme_named(text_or(theme, "light"@)) {
                    Some(t) => t,
                    None => Theme::Light,
                },
                port: match parse_unsigned(text_or(port, "4000"@), 65535) {
                    Some(p) => p as u16,
                    None => 4000,
                },
                enable_fog: match bool_named(text_or(fog, "true"@)) {
                    Some(b) => b,
                    None => true,
                },
                background_color: text_or(background, "default"@),
            },
        )
    }
}

/// The environment gives a setup exactly when at least one of its five
/// entries is present, whichever it is. The name and the background are
/// taken as given, and a missing entry takes its default: `Ward`, the light
/// theme, port 4000, fog on, background `default`.
pub proof fn environment_setup_presence(
    name: Option<Seq<char>>,
    theme: Option<Seq<char>>,
    port: Option<Seq<char>>,
    fog: Option<Seq<char>>,
    background: Option<Seq<char>>,
)
    ensures
        environment_setup(name, theme, port, fog, background) is Some <==> (name is Some
            || theme is Some || port is Some || fog is Some || background is Some),
        environment_setup(name, theme, port, fog, background) matches Some(v) ==> {
            &&& v.server_name == (match name {
                Some(x) => x,
                None => "Ward"@,
            })
            &&& v.background_color == (match background {
                Some(x) => x,
                None => "default"@,
            })
            &&& theme is None ==> v.theme == Theme::Light
            &&& port is None ==> v.port == 4000
            &&& fog is None ==> v.enable_fog
        },
{
    lemma_decimal_parses(4000, 65535);
    reveal_strlit("4000");
    assert(decimal(4000) =~= "4000"@) by {
        assert(decimal(4) =~= seq!['4']);
        assert(decimal(40) =~= seq!['4', '0']);
        assert(decimal(400) =~= seq!['4', '0', '0']);
    }
}

/// The setup that the environment gives (see `environment_setup`).
pub fn setup_from_environment(
    name: Option<String>,
    theme: Option<String>,
    port: Option<String>,
    fog: Option<String>,
    background: Option<String>,
) -> (r: Option<SetupDto>)
    ensures
        match r {
            Some(d) => environment_setup(
                opt_view(name),
                opt_view(theme),
                opt_view(port),
                opt_view(fog),
                opt_view(background),
            ) == Some(d@),
            None => environment_setup(
                opt_view(name),
                opt_view(theme),
                opt_view(port),
                opt_view(fog),
                opt_view(background),
            ) is None,
        },
{
    if name.is_none() && theme.is_none() && port.is_none() && fog.is_none() && background.is_none() {
        return None;
    }
    let t = match &theme {
        Some(s) => match Theme::parse(s.as_str()) {
            Ok(t) => t,
            Err(_) => Theme::Light,
        },
        None => match Theme::parse("light") {
            Ok(t) => t,
            Err(_) => Theme::Light,
        },
    };
    let p: u16 = match &port {
        Some(s) => match parse_unsigned_text(s.as_str(), 65535) {
            Some(v) => v as u16,
            None => 4000,
        },
        None => match parse_unsigned_text("4000", 65535) {
            Some(v) => v as u16,
            None => 4000,
        },
    };
    let f = match &fog {
        Some(s) => match parse_bool(s.as_str()) {
            Some(b) => b,
            None => true,
        },
        None => match parse_bool("true") {
            Some(b) => b,
            None => true,
        },
    };
    let server_name = match name {
        Some(s) => s,
        None => String::from_str("Ward"),
    };
    let background_color = match background {
        Some(s) => s,
        None => String::from_str("default"),
    };
    Some(SetupDto { server_name, theme: t, port: p, enable_fog: f, background_color })
}

/// The port to listen on and whether it was given from outside the setup
/// file: the command line's port, else the environment's (where it parses),
/// else the setup file's, else 4000.
pub open spec fn chosen_port(
    cli: Option<u16>,
    env_port: Option<Seq<char>>,
    configured: Option<u16>,
) -> (u16, bool) {
    let from_env = match env_port {
        Some(t) => parse_unsigned(t, 65535),
        None => None,
    };
    let port = match cli {
        Some(p) => p,
        None => match from_env {
            Some(p) => p as u16,
            None => match configured {
                Some(p) => p,
                None => 4000,
            },
        },
    };
    (port, cli is Some || from_env is Some)
}

/// The port to listen on, and whether it overrides the setup file (see
/// `chosen_port`).
pub fn select_port(cli: Option<u16>, env_port: Option<&str>, configured: Option<u16>) -> (r: (
    u16,
    bool,
))
    ensures
        r == chosen_port(cli, opt_str_view(env_port), configured),
{
    let from_env: Option<u64> = match env_port {
        Some(t) => parse_unsigned_text(t, 65535),
        None => None,
    };
    let overridden = cli.is_some() || from_env.is_some();
    let port = match cli {
        Some(p) => p,
        None => match from_env {
            Some(p) => p as u16,
            None => match configured {
                Some(p) => p,
                None => 4000,
            },
        },
    };
    (port, overridden)
}

} // verus!
