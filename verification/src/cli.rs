//! The command-line vocabulary: service actions and compression choices.

use vstd::prelude::*;
use crate::backup::CompressionType;

verus! {

/// Compression as chosen on the command line.
#[derive(Clone, Copy, Debug, PartialEq, Eq, Structural)]
pub enum Compression {
    Gzip,
    Bzip2,
    Xz,
    /// No compression (`none` on the command line).
    Plain,
}

impl Compression {
    /// The backup compression this choice selects.
    pub fn compression_type(&self) -> (r: CompressionType)
        ensures
            r == match self {
                Compression::Gzip => CompressionType::Gzip,
                Compression::Bzip2 => CompressionType::Bzip2,
                Compression::Xz => CompressionType::Xz,
                Compression::Plain => CompressionType::Plain,
            },
    {
        match self {
            Compression::Gzip => CompressionType::Gzip,
            Compression::Bzip2 => CompressionType::Bzip2,
            Compression::Xz => CompressionType::Xz,
            Compression::Plain => CompressionType::Plain,
        }
    }
}

/// An action on the service.
#[derive(Clone, Copy, Debug, PartialEq, Eq, Structural)]
pub enum Config {
    /// Set the CPU threshold (percent) above which a warning is sent.
    Cputsh { value: u8 },
    Status,
    Restart,
    Start,
    Stop,
}

/// The unit the service runs as.
pub open spec fn service_unit() -> Seq<char> {
    "AEON.service"@
}

/// The `systemctl` verb for an action on the service, if it is one.
pub open spec fn systemctl_verb(c: Config) -> Option<Seq<char>> {
    match c {
        Config::Cputsh { .. } => None,
        Config::Status => Some("status"@),
        Config::Restart => Some("restart"@),
        Config::Start => Some("start"@),
        Config::Stop => Some("stop"@),
    }
}

impl Config {
    /// The arguments to `systemctl` that carry out this action; none for
    /// setting the threshold, which is saved to the configuration instead.
    pub fn systemctl_args(&self) -> (r: Option<Vec<String>>)
        ensures
            match r {
                Some(args) => systemctl_verb(*self) is Some && args@.len() == 2 && args@[0]@
                    == systemctl_verb(*self)->0 && args@[1]@ == service_unit(),
                None => systemctl_verb(*self) is None,
            },
    {
        let verb = match self {
            Config::Cputsh { .. } => {
                return None;
            },
            Config::Status => "status".to_owned(),
            Config::Restart => "restart".to_owned(),
            Config::Start => "start".to_owned(),
            Config::Stop => "stop".to_owned(),
        };
        let mut args: Vec<String> = Vec::new();
        args.push(verb);
        args.push("AEON.service".to_owned());
        Some(args)
    }
}

} // verus!
