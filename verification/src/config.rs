//! The settings a process starts with, and the one mode they select.

use vstd::prelude::*;

verus! {

/// What a process is started with.
pub struct Settings {
    /// The host to serve on: server mode.
    pub host: Option<String>,
    /// The port to serve on.
    pub port: u16,
    /// The base URL of the server to talk to: client mode.
    pub url: Option<String>,
    /// The credential that every request must carry, if any.
    pub auth: Option<String>,
    /// The storage root to use in place of the default.
    pub path: Option<String>,
}

/// How a process works for its whole life.
pub enum Mode {
    /// It serves the notes under its storage root over HTTP.
    Server { host: String, port: u16 },
    /// It hands every operation to a server.
    Remote { url: String },
    /// It works on the notes under its storage root directly.
    Local,
}

/// Settings that contradict each other.
#[derive(Clone, Copy, Debug, PartialEq, Eq, Structural)]
pub enum ConfigError {
    /// A host to serve on and a server to talk to were both given.
    ServerAndClient,
    /// A server to talk to and a storage root were both given.
    ClientAndPath,
}

impl ConfigError {
    /// The message that is shown for the error.
    pub fn message(&self) -> (out: String)
        ensures
            out@ == match *self {
                ConfigError::ServerAndClient => "Cannot run in both Server Mode (--host) and Client Mode (--url) at the same time."@,
                ConfigError::ClientAndPath => "Cannot run in both Client Mode (--url) and Local Mode (--path) at the same time."@,
            },
    {
        match self {
            ConfigError::ServerAndClient => "Cannot run in both Server Mode (--host) and Client Mode (--url) at the same time.".to_owned(),
            ConfigError::ClientAndPath => "Cannot run in both Client Mode (--url) and Local Mode (--path) at the same time.".to_owned(),
        }
    }
}

/// A mode as a mathematical value.
pub enum ModeView {
    Server { host: Seq<char>, port: u16 },
    Remote { url: Seq<char> },
    Local,
}

impl View for Mode {
    type V = ModeView;

    open spec fn view(&self) -> ModeView {
        match *self {
            Mode::Server { host, port } => ModeView::Server { host: host@, port },
            Mode::Remote { url } => ModeView::Remote { url: url@ },
            Mode::Local => ModeView::Local,
        }
    }
}

/// The mode that the settings select, or the contradiction in them. A host
/// together with a URL is refused, and so is a URL together with a storage
/// root. Otherwise a host selects the server, a URL the client, and neither
/// the local mode.
pub open spec fn mode_of(settings: Settings) -> Result<ModeView, ConfigError> {
    if settings.host.is_some() && settings.url.is_some() {
        Err(ConfigError::ServerAndClient)
    } else if settings.url.is_some() && settings.path.is_some() {
        Err(ConfigError::ClientAndPath)
    } else if settings.host.is_some() {
        Ok(ModeView::Server { host: settings.host.unwrap()@, port: settings.port })
    } else if settings.url.is_some() {
        Ok(ModeView::Remote { url: settings.url.unwrap()@ })
    } else {
        Ok(ModeView::Local)
    }
}

/// Selects the mode of the process from its settings.
pub fn select_mode(settings: &Settings) -> (out: Result<Mode, ConfigError>)
    ensures
        match out {
            Ok(mode) => mode_of(*settings) == Ok::<ModeView, ConfigError>(mode@),
            Err(error) => mode_of(*settings) == Err::<ModeView, ConfigError>(error),
        },
{
    if settings.host.is_some() && settings.url.is_some() {
        return Err(ConfigError::ServerAndClient);
    }
    if settings.url.is_some() && settings.path.is_some() {
        return Err(ConfigError::ClientAndPath);
    }
    match &settings.host {
        Some(host) => Ok(Mode::Server { host: host.clone(), port: settings.port }),
        None => match &settings.url {
            Some(url) => Ok(Mode::Remote { url: url.clone() }),
            None => Ok(Mode::Local),
        },
    }
}

} // verus!
