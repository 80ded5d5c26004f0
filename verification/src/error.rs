//! Error type and the stable, agent-facing exit-code contract.
use vstd::prelude::*;

use crate::text;

verus! {

/// All failures surfaced by vpn.
///
/// Each variant maps to a fixed process exit code (see [`Error::exit_code`]) so
/// that automation can branch on the outcome without parsing text. A failure of
/// the operating system is carried as its message.
#[derive(Debug, PartialEq, Eq)]
pub enum Error {
    /// A named tunnel has no matching `<name>.conf` in the config directory.
    TunnelNotFound(String),
    /// A tunnel name is not a legal WireGuard interface name.
    InvalidName(String),
    /// The config directory exists but could not be read.
    ConfigDir(String, String),
    /// The `config.toml` settings file could not be parsed.
    ConfigParse {
        /// Path to the offending file.
        path: String,
        /// Human-readable parse error.
        message: String,
    },
    /// A tunnel config file exists but could not be read.
    TunnelConfRead {
        /// Path to the tunnel config.
        path: String,
        /// What the operating system said.
        source: String,
    },
    /// A tunnel config has no `[Peer]` section with a `PublicKey`.
    TunnelConfPeer {
        /// Path to the tunnel config.
        path: String,
    },
    /// The backend command ran but exited non-zero.
    Backend {
        /// The program that failed (e.g. `wg-quick`).
        program: String,
        /// Its exit status, or `-1` if it was terminated by a signal.
        code: i32,
        /// Captured diagnostic output.
        stderr: String,
    },
    /// The backend command could not be launched at all.
    Spawn {
        /// The program we tried to launch.
        program: String,
        /// What the operating system said.
        source: String,
    },
    /// The operation was refused, with the reason.
    Refused(String),
    /// A file could not be written.
    Write {
        /// Path to the file.
        path: String,
        /// What the operating system said.
        source: String,
    },
}

/// An [`Error`] with its texts as sequences of characters.
pub enum ErrorView {
    /// See [`Error::TunnelNotFound`].
    TunnelNotFound(Seq<char>),
    /// See [`Error::InvalidName`].
    InvalidName(Seq<char>),
    /// See [`Error::ConfigDir`].
    ConfigDir(Seq<char>, Seq<char>),
    /// See [`Error::ConfigParse`].
    ConfigParse {
        /// Path to the offending file.
        path: Seq<char>,
        /// Human-readable parse error.
        message: Seq<char>,
    },
    /// See [`Error::TunnelConfRead`].
    TunnelConfRead {
        /// Path to the tunnel config.
        path: Seq<char>,
        /// What the operating system said.
        source: Seq<char>,
    },
    /// See [`Error::TunnelConfPeer`].
    TunnelConfPeer {
        /// Path to the tunnel config.
        path: Seq<char>,
    },
    /// See [`Error::Backend`].
    Backend {
        /// The program that failed.
        program: Seq<char>,
        /// Its exit status.
        code: i32,
        /// Captured diagnostic output.
        stderr: Seq<char>,
    },
    /// See [`Error::Spawn`].
    Spawn {
        /// The program we tried to launch.
        program: Seq<char>,
        /// What the operating system said.
        source: Seq<char>,
    },
    /// See [`Error::Refused`].
    Refused(Seq<char>),
    /// See [`Error::Write`].
    Write {
        /// Path to the file.
        path: Seq<char>,
        /// What the operating system said.
        source: Seq<char>,
    },
}

impl DeepView for Error {
    type V = ErrorView;

    open spec fn deep_view(&self) -> ErrorView {
        match self {
            Error::TunnelNotFound(name) => ErrorView::TunnelNotFound(name@),
            Error::InvalidName(name) => ErrorView::InvalidName(name@),
            Error::ConfigDir(path, source) => ErrorView::ConfigDir(path@, source@),
            Error::ConfigParse { path, message } => ErrorView::ConfigParse {
                path: path@,
                message: message@,
            },
            Error::TunnelConfRead { path, source } => ErrorView::TunnelConfRead {
                path: path@,
                source: source@,
            },
            Error::TunnelConfPeer { path } => ErrorView::TunnelConfPeer { path: path@ },
            Error::Backend { program, code, stderr } => ErrorView::Backend {
                program: program@,
                code: *code,
                stderr: stderr@,
            },
            Error::Spawn { program, source } => ErrorView::Spawn {
                program: program@,
                source: source@,
            },
            Error::Refused(reason) => ErrorView::Refused(reason@),
            Error::Write { path, source } => ErrorView::Write { path: path@, source: source@ },
        }
    }
}

impl ErrorView {
    /// The exit code of each failure.
    pub open spec fn exit_code(self) -> i32 {
        match self {
            ErrorView::ConfigDir(..)
            | ErrorView::ConfigParse { .. }
            | ErrorView::TunnelConfRead { .. }
            | ErrorView::TunnelConfPeer { .. }
            | ErrorView::Refused(_)
            | ErrorView::Write { .. } => 1,
            ErrorView::TunnelNotFound(_) => 3,
            ErrorView::InvalidName(_) => 4,
            ErrorView::Backend { .. } => 5,
            ErrorView::Spawn { .. } => 6,
        }
    }

    /// What is said of each failure.
    pub open spec fn message(self) -> Seq<char> {
        match self {
            ErrorView::TunnelNotFound(name) => "tunnel '"@ + name
                + "' not found in config directory"@,
            ErrorView::InvalidName(name) => "invalid tunnel name '"@ + name
                + "' (allowed: letters, digits and _=+.- up to 15 chars)"@,
            ErrorView::ConfigDir(path, source) => "config directory '"@ + path
                + "' could not be read: "@ + source,
            ErrorView::ConfigParse { path, message } => "config file '"@ + path + "' is invalid: "@
                + message,
            ErrorView::TunnelConfRead { path, source } => "tunnel config '"@ + path
                + "' could not be read: "@ + source,
            ErrorView::TunnelConfPeer { path } => "tunnel config '"@ + path
                + "' has no [Peer] PublicKey"@,
            ErrorView::Backend { program, code, stderr } => program + " failed (exit "@
                + text::signed_number(code as int) + "): "@ + stderr,
            ErrorView::Spawn { program, source } => "failed to run '"@ + program + "': "@ + source
                + " (is it installed and on PATH?)"@,
            ErrorView::Refused(reason) => reason,
            ErrorView::Write { path, source } => "'"@ + path + "' could not be written: "@ + source,
        }
    }
}

impl Error {
    /// The process exit code associated with this error.
    ///
    /// The mapping is part of vpn's public contract:
    ///
    /// | code | meaning                                         |
    /// |------|-------------------------------------------------|
    /// | 1    | I/O / config file failure, or refused operation |
    /// | 3    | tunnel not found                                |
    /// | 4    | invalid tunnel name                             |
    /// | 5    | backend command exited non-zero                 |
    /// | 6    | backend command could not be spawned            |
    pub fn exit_code(&self) -> (code: i32)
        ensures
            code == self.deep_view().exit_code(),
    {
        match self {
            Error::ConfigDir(..)
            | Error::ConfigParse { .. }
            | Error::TunnelConfRead { .. }
            | Error::TunnelConfPeer { .. }
            | Error::Refused(_)
            | Error::Write { .. } => 1,
            Error::TunnelNotFound(_) => 3,
            Error::InvalidName(_) => 4,
            Error::Backend { .. } => 5,
            Error::Spawn { .. } => 6,
        }
    }

    /// What to tell the user.
    pub fn to_string(&self) -> (r: String)
        ensures
            r@ == self.deep_view().message(),
    {
        match self {
            Error::TunnelNotFound(name) => {
                let mut out = "tunnel '".to_owned();
                out.append(name);
                out.append("' not found in config directory");
                out
            },
            Error::InvalidName(name) => {
                let mut out = "invalid tunnel name '".to_owned();
                out.append(name);
                out.append("' (allowed: letters, digits and _=+.- up to 15 chars)");
                out
            },
            Error::ConfigDir(path, source) => {
                let mut out = "config directory '".to_owned();
                out.append(path);
                out.append("' could not be read: ");
                out.append(source);
                out
            },
            Error::ConfigParse { path, message } => {
                let mut out = "config file '".to_owned();
                out.append(path);
                out.append("' is invalid: ");
                out.append(message);
                out
            },
            Error::TunnelConfRead { path, source } => {
                let mut out = "tunnel config '".to_owned();
                out.append(path);
                out.append("' could not be read: ");
                out.append(source);
                out
            },
            Error::TunnelConfPeer { path } => {
                let mut out = "tunnel config '".to_owned();
                out.append(path);
                out.append("' has no [Peer] PublicKey");
                out
            },
            Error::Backend { program, code, stderr } => {
                let mut out = program.clone();
                out.append(" failed (exit ");
                let number = text::text_signed(*code as i64);
                out.append(&number);
                out.append("): ");
                out.append(stderr);
                out
            },
            Error::Spawn { program, source } => {
                let mut out = "failed to run '".to_owned();
                out.append(program);
                out.append("': ");
                out.append(source);
                out.append(" (is it installed and on PATH?)");
                out
            },
            Error::Refused(reason) => reason.clone(),
            Error::Write { path, source } => {
                let mut out = "'".to_owned();
                out.append(path);
                out.append("' could not be written: ");
                out.append(source);
                out
            },
        }
    }
}

/// The outcome of a fallible operation, seen through the views of its value and
/// its error.
pub open spec fn outcome<T: DeepView>(r: Result<T, Error>) -> Result<T::V, ErrorView> {
    match r {
        Ok(v) => Ok(v.deep_view()),
        Err(e) => Err(e.deep_view()),
    }
}

/// The outcome of a fallible operation in progress; `None` where it has not
/// finished.
pub open spec fn so_far<T: DeepView>(r: Option<Result<T, Error>>) -> Option<
    Result<T::V, ErrorView>,
> {
    match r {
        Some(x) => Some(outcome(x)),
        None => None,
    }
}

} // verus!
