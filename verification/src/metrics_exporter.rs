//! The decisions of the metrics exporter: what to do with the metrics for a
//! configured exporter, and how to serve an incoming connection.
use vstd::prelude::*;

verus! {

/// How often, in seconds, metrics are dumped to the log.
pub const LOG_INTERVAL_SECS: u64 = 30;

/// The first byte of a TLS handshake record.
pub const TLS_HANDSHAKE_RECORD: u8 = 22;

/// Where metrics are exported.
#[derive(Clone, Debug, PartialEq, Eq)]
pub enum Exporter {
    /// Served over HTTP on this port, on every interface.
    Http { port: u16 },
    /// Dumped to the log every [`LOG_INTERVAL_SECS`] seconds.
    Log,
    /// Written to this file when the exporter shuts down.
    File { path: String },
}

/// The background task the exporter starts.
#[derive(Clone, Copy, Debug, PartialEq, Eq, Structural)]
pub enum ExporterTask {
    ServeHttp { port: u16 },
    DumpToLog { interval_secs: u64 },
    Nothing,
}

/// The task started for an exporter: a server for HTTP, a periodic log dump
/// for the log, none for a file.
pub fn exporter_task(exporter: &Exporter) -> (res: ExporterTask)
    ensures
        res == match exporter {
            Exporter::Http { port } => ExporterTask::ServeHttp { port: *port },
            Exporter::Log => ExporterTask::DumpToLog { interval_secs: LOG_INTERVAL_SECS },
            Exporter::File { .. } => ExporterTask::Nothing,
        },
{
    match exporter {
        Exporter::Http { port } => ExporterTask::ServeHttp { port: *port },
        Exporter::Log => ExporterTask::DumpToLog { interval_secs: LOG_INTERVAL_SECS },
        Exporter::File { .. } => ExporterTask::Nothing,
    }
}

/// The file the metrics are written to when the exporter shuts down: the
/// path of a file exporter, none otherwise.
pub fn file_on_shutdown(exporter: &Exporter) -> (res: Option<String>)
    ensures
        match exporter {
            Exporter::File { path } => res matches Some(p) && p@ == path@,
            _ => res is None,
        },
{
    match exporter {
        Exporter::File { path } => Some(path.clone()),
        _ => None,
    }
}

/// How an accepted connection is served.
#[derive(Clone, Copy, Debug, PartialEq, Eq, Structural)]
pub enum ConnectionAction {
    /// Perform a TLS server handshake, then serve HTTP over it.
    TlsThenHttp,
    /// Serve plain HTTP.
    PlainHttp,
    /// Drop the connection.
    Drop,
}

/// A connection whose first byte starts a TLS handshake gets a TLS handshake
/// when TLS is configured and is dropped otherwise; any other connection
/// (including one whose first byte could not be peeked) gets plain HTTP.
/// `first_byte` is the peeked byte, `None` when peeking failed.
pub fn connection_action(first_byte: Option<u8>, tls_configured: bool) -> (res: ConnectionAction)
    ensures
        res == if first_byte == Some(TLS_HANDSHAKE_RECORD) {
            if tls_configured {
                ConnectionAction::TlsThenHttp
            } else {
                ConnectionAction::Drop
            }
        } else {
            ConnectionAction::PlainHttp
        },
{
    match first_byte {
        Some(b) => {
            if b == TLS_HANDSHAKE_RECORD {
                if tls_configured {
                    ConnectionAction::TlsThenHttp
                } else {
                    ConnectionAction::Drop
                }
            } else {
                ConnectionAction::PlainHttp
            }
        },
        None => ConnectionAction::PlainHttp,
    }
}

} // verus!
