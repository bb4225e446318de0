//! Logging settings and the context that log records carry.

use vstd::prelude::*;

use crate::text::{lower_text, text_equal, to_lower};

verus! {

/// The target under which events of the hot path are logged.
pub const HOT_PATH_TARGET: &'static str = "qe::hot_path";

/// Why logging could not be set up.
#[derive(Debug)]
pub enum TelemetryError {
    /// The filter directive does not parse.
    Filter {
        /// The directive.
        directive: String,
        /// What is wrong with it.
        message: String,
    },
    /// A subscriber is installed already.
    Init(String),
}

/// How records are written.
#[derive(Debug, Clone, Copy, PartialEq, Eq, Structural)]
pub enum LogFormat {
    /// One JSON object for each record.
    Json,
    /// Several lines of plain text for each record.
    Pretty,
}

/// Where records are written.
#[derive(Debug, Clone, Copy, PartialEq, Eq, Structural)]
pub enum OutputStream {
    /// Standard output.
    Stdout,
    /// Standard error, for programs whose standard output is a protocol.
    Stderr,
}

/// Logging settings.
#[derive(Debug)]
pub struct TelemetryConfig {
    /// The filter directive, such as `info,qe_wfo=debug`.
    pub level: String,
    /// How records are written.
    pub format: LogFormat,
    /// Whether records are written by a thread of their own. Under sustained load it drops records
    /// rather than hold up the program.
    pub non_blocking: bool,
    /// Where records are written.
    pub writer: OutputStream,
}

/// A [`TelemetryConfig`] with its text as a sequence.
pub struct ConfigModel {
    /// The filter directive.
    pub level: Seq<char>,
    /// How records are written.
    pub format: LogFormat,
    /// Whether records are written by a thread of their own.
    pub non_blocking: bool,
    /// Where records are written.
    pub writer: OutputStream,
}

impl View for TelemetryConfig {
    type V = ConfigModel;

    open spec fn view(&self) -> ConfigModel {
        ConfigModel {
            level: self.level@,
            format: self.format,
            non_blocking: self.non_blocking,
            writer: self.writer,
        }
    }
}

impl Clone for TelemetryConfig {
    fn clone(&self) -> (r: TelemetryConfig)
        ensures
            r@ == self@,
    {
        TelemetryConfig {
            level: self.level.clone(),
            format: self.format,
            non_blocking: self.non_blocking,
            writer: self.writer,
        }
    }
}

/// The settings where nothing else is said.
pub open spec fn default_config() -> ConfigModel {
    ConfigModel {
        level: "info"@,
        format: LogFormat::Json,
        non_blocking: true,
        writer: OutputStream::Stdout,
    }
}

impl Default for TelemetryConfig {
    fn default() -> (r: TelemetryConfig)
        ensures
            r@ == default_config(),
    {
        TelemetryConfig {
            level: "info".to_owned(),
            format: LogFormat::Json,
            non_blocking: true,
            writer: OutputStream::Stdout,
        }
    }
}

/// What an environment variable says: nothing where it is unset or empty.
pub open spec fn said(var: Option<String>) -> Option<Seq<char>> {
    match var {
        Some(text) => if text@.len() > 0 {
            Some(text@)
        } else {
            None
        },
        None => None,
    }
}

/// The settings that three environment variables ask for: the first that says anything of `rust_log`
/// and `qe_log` is the directive; a `qe_log_format` of `pretty`, in capitals or not, asks for plain
/// text.
pub open spec fn configured(
    rust_log: Option<Seq<char>>,
    qe_log: Option<Seq<char>>,
    qe_log_format: Option<Seq<char>>,
) -> ConfigModel {
    ConfigModel {
        level: match rust_log {
            Some(level) => level,
            None => match qe_log {
                Some(level) => level,
                None => default_config().level,
            },
        },
        format: if qe_log_format matches Some(text) && lower_text(text) == "pretty"@ {
            LogFormat::Pretty
        } else {
            LogFormat::Json
        },
        ..default_config()
    }
}

/// A variable that is set and not empty.
fn non_empty(var: Option<String>) -> (r: Option<String>)
    ensures
        match r {
            Some(text) => said(var) == Some(text@),
            None => said(var) is None,
        },
{
    match var {
        Some(text) => {
            if text.as_str().unicode_len() > 0 {
                Some(text)
            } else {
                None
            }
        },
        None => None,
    }
}

impl TelemetryConfig {
    /// The settings that the environment asks for, given the values of `RUST_LOG`, `QE_LOG` and
    /// `QE_LOG_FORMAT`, each `None` where the variable is unset.
    pub fn from_env(
        rust_log: Option<String>,
        qe_log: Option<String>,
        qe_log_format: Option<String>,
    ) -> (r: TelemetryConfig)
        ensures
            r@ == configured(said(rust_log), said(qe_log), said(qe_log_format)),
    {
        let default: TelemetryConfig = TelemetryConfig::default();
        let level: String = match non_empty(rust_log) {
            Some(level) => level,
            None => match non_empty(qe_log) {
                Some(level) => level,
                None => default.level,
            },
        };
        let format: LogFormat = match non_empty(qe_log_format) {
            Some(text) => {
                if text_equal(to_lower(text.as_str()).as_str(), "pretty") {
                    LogFormat::Pretty
                } else {
                    LogFormat::Json
                }
            },
            None => LogFormat::Json,
        };
        TelemetryConfig { level, format, non_blocking: default.non_blocking, writer: default.writer }
    }
}

/// The context of a stage of a run.
#[derive(Debug, Clone, Copy)]
pub struct Correlation<'a> {
    /// The run.
    pub run_id: &'a str,
    /// The content hash of the vintage in use; a dash where it is not known yet.
    pub vintage_hash: &'a str,
    /// The instrument; a dash for a stage of the whole run.
    pub instrument: &'a str,
    /// The walk-forward window; a dash where there is none.
    pub window_id: &'a str,
}

impl<'a> Correlation<'a> {
    /// The context of a whole run: no instrument, no window.
    pub fn run(run_id: &'a str, vintage_hash: &'a str) -> (r: Correlation<'a>)
        ensures
            r.run_id@ == run_id@,
            r.vintage_hash@ == vintage_hash@,
            r.instrument@ == "-"@,
            r.window_id@ == "-"@,
    {
        Correlation { run_id, vintage_hash, instrument: "-", window_id: "-" }
    }
}

/// What an empty variable says is what an unset one says.
pub proof fn law_empty_is_unset(empty: String)
    requires
        empty@.len() == 0,
    ensures
        said(Some(empty)) == said(None),
{
}

/// The environment never changes whether records have a thread of their own, nor where they go.
pub proof fn law_environment_leaves_the_writer(
    rust_log: Option<Seq<char>>,
    qe_log: Option<Seq<char>>,
    qe_log_format: Option<Seq<char>>,
)
    ensures
        configured(rust_log, qe_log, qe_log_format).non_blocking == default_config().non_blocking,
        configured(rust_log, qe_log, qe_log_format).writer == default_config().writer,
        rust_log matches Some(level) ==> configured(rust_log, qe_log, qe_log_format).level == level,
{
}

/// The directive is what `RUST_LOG` says, else what `QE_LOG` says, else `info`; records are plain text
/// exactly if the format asked for is `pretty`, in capitals or not, and go to the standard output from a
/// thread of their own.
pub proof fn law_environment_is_obeyed_in_order(
    rust_log: Option<Seq<char>>,
    qe_log: Option<Seq<char>>,
    qe_log_format: Option<Seq<char>>,
)
    ensures
        ({
            let c = configured(rust_log, qe_log, qe_log_format);
            &&& rust_log matches Some(level) ==> c.level == level
            &&& rust_log is None && qe_log is Some ==> c.level == qe_log->0
            &&& rust_log is None && qe_log is None ==> c.level == "info"@
            &&& c.format == LogFormat::Pretty <==> qe_log_format is Some && lower_text(
                qe_log_format->0,
            ) == "pretty"@
            &&& c.format == LogFormat::Json <==> c.format != LogFormat::Pretty
            &&& c.non_blocking
            &&& c.writer == OutputStream::Stdout
        }),
{
}

/// A variable says its own text, unless that is empty.
pub proof fn law_variables_say_their_text(var: String)
    ensures
        said(Some(var)) == (if var@.len() == 0 {
            None
        } else {
            Some(var@)
        }),
        said(None) is None,
{
}

} // verus!
