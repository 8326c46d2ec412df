//! Structured stage logging, without the I/O: validates events and builds
//! the records that a sink appends, one JSON object per line, to the file at
//! the logger's path.
use vstd::prelude::*;
use vstd::string::StringExecFns;

verus! {

/// What `str::trim` leaves of a string.
pub uninterp spec fn trim_of(s: Seq<char>) -> Seq<char>;

/// Relies on `str::trim`: the string without leading and trailing
/// whitespace, which depends on the characters alone.
#[verifier::external_body]
fn trimmed(s: &str) -> (r: &str)
    ensures
        r@ == trim_of(s@),
{
    s.trim()
}

/// Whether a string holds nothing but whitespace.
pub open spec fn is_blank(s: Seq<char>) -> bool {
    trim_of(s).len() == 0
}

fn blank(s: &str) -> (r: bool)
    ensures
        r == is_blank(s@),
{
    trimmed(s).is_empty()
}

/// Severity of a log record.
#[derive(Debug, Clone, Copy, PartialEq, Eq, Structural)]
pub enum LogLevel {
    Info,
    Warn,
    Error,
}

/// The name under which a level is written.
pub open spec fn level_name(level: LogLevel) -> Seq<char> {
    match level {
        LogLevel::Info => "Info"@,
        LogLevel::Warn => "Warn"@,
        LogLevel::Error => "Error"@,
    }
}

impl LogLevel {
    /// The name under which this level is written.
    pub fn as_str(&self) -> (r: &'static str)
        ensures
            r@ == level_name(*self),
    {
        match self {
            LogLevel::Info => "Info",
            LogLevel::Warn => "Warn",
            LogLevel::Error => "Error",
        }
    }
}

/// Why a logger or a record is refused.
#[derive(Debug, Clone, Copy, PartialEq, Eq, Structural)]
pub enum LogError {
    /// The job id is blank, so there is no stable log location.
    EmptyJobId,
    /// The stage name is blank, so there is no stable file name.
    EmptyStage,
    /// The event name is blank.
    EmptyEvent,
    /// The message is blank.
    EmptyMessage,
}

/// One structured log record.
pub struct LogEvent {
    pub ts: i64,
    pub stage: String,
    pub job_id: String,
    pub level: String,
    pub event: String,
    pub msg: String,
    pub kv: Vec<(String, String)>,
}

/// A logger for one stage of one job.
pub struct StageLogger {
    stage: String,
    job_id: String,
    log_path: String,
}

/// Where the records of a stage of a job go, under a log root:
/// `<root>/jobs/<job_id>/<stage>.log.jsonl`.
pub open spec fn log_path_of(log_root: Seq<char>, job_id: Seq<char>, stage: Seq<char>) -> Seq<
    char,
> {
    log_root + "/jobs/"@ + job_id + "/"@ + stage + ".log.jsonl"@
}

impl StageLogger {
    /// The stage this logger writes for.
    pub closed spec fn stage_view(&self) -> Seq<char> {
        self.stage@
    }

    /// The job this logger writes for.
    pub closed spec fn job_id_view(&self) -> Seq<char> {
        self.job_id@
    }

    /// The file this logger's records go to.
    pub closed spec fn log_path_view(&self) -> Seq<char> {
        self.log_path@
    }

    /// A logger for `stage` of job `job_id`, writing under `log_root`. A blank
    /// job id or stage is refused.
    pub fn new(job_id: &str, stage: &str, log_root: &str) -> (r: Result<StageLogger, LogError>)
        ensures
            is_blank(job_id@) ==> r == Err::<StageLogger, LogError>(LogError::EmptyJobId),
            !is_blank(job_id@) && is_blank(stage@) ==> r == Err::<StageLogger, LogError>(
                LogError::EmptyStage,
            ),
            !is_blank(job_id@) && !is_blank(stage@) ==> r is Ok && r->Ok_0.job_id_view()
                == job_id@ && r->Ok_0.stage_view() == stage@ && r->Ok_0.log_path_view()
                == log_path_of(log_root@, job_id@, stage@),
    {
        if blank(job_id) {
            return Err(LogError::EmptyJobId);
        }
        if blank(stage) {
            return Err(LogError::EmptyStage);
        }
        let mut path = log_root.to_owned();
        path.append("/jobs/");
        path.append(job_id);
        path.append("/");
        path.append(stage);
        path.append(".log.jsonl");
        assert(path@ =~= log_path_of(log_root@, job_id@, stage@));
        Ok(StageLogger { stage: stage.to_owned(), job_id: job_id.to_owned(), log_path: path })
    }

    /// The file this logger's records go to.
    pub fn log_path(&self) -> (r: &str)
        ensures
            r@ == self.log_path_view(),
    {
        self.log_path.as_str()
    }

    /// An `Info` record.
    pub fn info(&self, ts: i64, event: &str, msg: &str, kv: Vec<(String, String)>) -> (r: Result<
        LogEvent,
        LogError,
    >)
        ensures
            self.record_outcome(LogLevel::Info, ts, event@, msg@, kv@, r),
    {
        self.write(LogLevel::Info, ts, event, msg, kv)
    }

    /// A `Warn` record.
    pub fn warn(&self, ts: i64, event: &str, msg: &str, kv: Vec<(String, String)>) -> (r: Result<
        LogEvent,
        LogError,
    >)
        ensures
            self.record_outcome(LogLevel::Warn, ts, event@, msg@, kv@, r),
    {
        self.write(LogLevel::Warn, ts, event, msg, kv)
    }

    /// An `Error` record.
    pub fn error(&self, ts: i64, event: &str, msg: &str, kv: Vec<(String, String)>) -> (r: Result<
        LogEvent,
        LogError,
    >)
        ensures
            self.record_outcome(LogLevel::Error, ts, event@, msg@, kv@, r),
    {
        self.write(LogLevel::Error, ts, event, msg, kv)
    }

    /// What a record request gives: an error for a blank event name, then for
    /// a blank message; otherwise the record, stamped with this logger's
    /// stage and job.
    pub open spec fn record_outcome(
        &self,
        level: LogLevel,
        ts: i64,
        event: Seq<char>,
        msg: Seq<char>,
        kv: Seq<(String, String)>,
        r: Result<LogEvent, LogError>,
    ) -> bool {
        if is_blank(event) {
            r == Err::<LogEvent, LogError>(LogError::EmptyEvent)
        } else if is_blank(msg) {
            r == Err::<LogEvent, LogError>(LogError::EmptyMessage)
        } else {
            &&& r is Ok
            &&& r->Ok_0.ts == ts
            &&& r->Ok_0.stage@ == self.stage_view()
            &&& r->Ok_0.job_id@ == self.job_id_view()
            &&& r->Ok_0.level@ == level_name(level)
            &&& r->Ok_0.event@ == event
            &&& r->Ok_0.msg@ == msg
            &&& r->Ok_0.kv@ == kv
        }
    }

    fn write(&self, level: LogLevel, ts: i64, event: &str, msg: &str, kv: Vec<(String, String)>) -> (r:
        Result<LogEvent, LogError>)
        ensures
            self.record_outcome(level, ts, event@, msg@, kv@, r),
    {
        if blank(event) {
            return Err(LogError::EmptyEvent);
        }
        if blank(msg) {
            return Err(LogError::EmptyMessage);
        }
        Ok(
            LogEvent {
                ts,
                stage: self.stage.clone(),
                job_id: self.job_id.clone(),
                level: level.as_str().to_owned(),
                event: event.to_owned(),
                msg: msg.to_owned(),
                kv,
            },
        )
    }
}

} // verus!
