//! Configuration of the background service.

use core::str::FromStr;

use vstd::prelude::*;

use crate::error::ErrorCode;
use crate::text::same_text;

verus! {

#[verifier::external_type_specification]
#[verifier::external_body]
pub struct ExParseError(chrono_tz::ParseError);

/// Whether a text is the name of a time zone.
pub uninterp spec fn is_time_zone(name: Seq<char>) -> bool;

/// Looks up a time zone with `chrono_tz::Tz::from_str` and gives its name back.
///
/// Which names there are depends on the time zone database and is left open; the name of the
/// time zone that is found is the name that was looked up.
#[verifier::external_body]
fn find_time_zone(name: &str) -> (r: Result<String, chrono_tz::ParseError>)
    ensures
        r is Ok <==> is_time_zone(name@),
        r matches Ok(found) ==> found@ == name@,
{
    chrono_tz::Tz::from_str(name).map(|tz| tz.name().to_string())
}

/// The text of a failed look-up, as `chrono_tz::ParseError` displays it: always the same.
#[verifier::external_body]
fn parse_error_text(e: &chrono_tz::ParseError) -> (r: String)
    ensures
        r@ == "failed to parse timezone"@,
{
    e.to_string()
}

#[derive(Debug)]
pub struct BackgroundConfig {
    pub enable: bool,
    /// Fs compaction related background config.
    pub compaction: BackgroundCompactionConfig,
}

#[derive(Debug)]
pub struct BackgroundCompactionConfig {
    pub compact_mode: String,
    /// The most segments that are compacted in a batch; `None` where there is no limit.
    pub segment_limit: Option<u64>,
    /// The most blocks that are compacted in a batch; `None` where there is no limit.
    pub block_limit: Option<u64>,
    pub scheduled_config: BackgroundScheduledConfig,
}

#[derive(Debug)]
pub struct BackgroundScheduledConfig {
    /// The fixed interval for compaction on each table.
    pub duration_secs: u64,
    /// The cron expression for a scheduled job, by default in the UTC time zone.
    pub cron: String,
    pub time_zone: Option<String>,
}

#[derive(Clone, Copy, Debug, PartialEq, Eq, Structural)]
pub enum BackgroundJobType {
    ONESHOT,
    INTERVAL,
    CRON,
}

#[derive(Debug)]
pub struct BackgroundJobParams {
    pub job_type: BackgroundJobType,
    pub scheduled_job_interval_secs: u64,
    pub scheduled_job_cron: String,
    /// The name of the time zone of the job.
    pub scheduled_job_timezone: Option<String>,
}

#[derive(Debug)]
pub struct InnerBackgroundConfig {
    pub enable: bool,
    pub compaction: InnerBackgroundCompactionConfig,
}

#[derive(Debug)]
pub struct InnerBackgroundCompactionConfig {
    pub segment_limit: Option<u64>,
    pub block_limit: Option<u64>,
    pub params: BackgroundJobParams,
}

pub open spec fn optional_view(s: Option<String>) -> Option<Seq<char>> {
    match s {
        Some(s) => Some(s@),
        None => None,
    }
}

fn clone_optional(s: &Option<String>) -> (r: Option<String>)
    ensures
        optional_view(r) == optional_view(*s),
{
    match s {
        Some(s) => Some(s.clone()),
        None => None,
    }
}

pub struct ScheduledView {
    pub duration_secs: u64,
    pub cron: Seq<char>,
    pub time_zone: Option<Seq<char>>,
}

pub struct CompactionView {
    pub compact_mode: Seq<char>,
    pub segment_limit: Option<u64>,
    pub block_limit: Option<u64>,
    pub scheduled_config: ScheduledView,
}

pub struct JobView {
    pub job_type: BackgroundJobType,
    pub interval_secs: u64,
    pub cron: Seq<char>,
    pub time_zone: Option<Seq<char>>,
}

pub struct InnerCompactionView {
    pub segment_limit: Option<u64>,
    pub block_limit: Option<u64>,
    pub params: JobView,
}

impl View for BackgroundScheduledConfig {
    type V = ScheduledView;

    open spec fn view(&self) -> ScheduledView {
        ScheduledView {
            duration_secs: self.duration_secs,
            cron: self.cron@,
            time_zone: optional_view(self.time_zone),
        }
    }
}

impl View for BackgroundCompactionConfig {
    type V = CompactionView;

    open spec fn view(&self) -> CompactionView {
        CompactionView {
            compact_mode: self.compact_mode@,
            segment_limit: self.segment_limit,
            block_limit: self.block_limit,
            scheduled_config: self.scheduled_config@,
        }
    }
}

impl View for BackgroundJobParams {
    type V = JobView;

    open spec fn view(&self) -> JobView {
        JobView {
            job_type: self.job_type,
            interval_secs: self.scheduled_job_interval_secs,
            cron: self.scheduled_job_cron@,
            time_zone: optional_view(self.scheduled_job_timezone),
        }
    }
}

impl View for InnerBackgroundCompactionConfig {
    type V = InnerCompactionView;

    open spec fn view(&self) -> InnerCompactionView {
        InnerCompactionView {
            segment_limit: self.segment_limit,
            block_limit: self.block_limit,
            params: self.params@,
        }
    }
}

pub open spec fn default_schedule() -> ScheduledView {
    ScheduledView { duration_secs: 1800, cron: Seq::empty(), time_zone: None }
}

pub open spec fn interval_schedule(duration_secs: u64) -> ScheduledView {
    ScheduledView { duration_secs, cron: Seq::empty(), time_zone: None }
}

pub open spec fn cron_schedule(cron: Seq<char>, time_zone: Option<Seq<char>>) -> ScheduledView {
    ScheduledView { duration_secs: 0, cron, time_zone }
}

pub open spec fn one_shot_job() -> JobView {
    JobView { job_type: BackgroundJobType::ONESHOT, interval_secs: 0, cron: Seq::empty(), time_zone: None }
}

pub open spec fn interval_job(secs: u64) -> JobView {
    JobView { job_type: BackgroundJobType::INTERVAL, interval_secs: secs, cron: Seq::empty(), time_zone: None }
}

pub open spec fn cron_job(cron: Seq<char>, time_zone: Option<Seq<char>>) -> JobView {
    JobView { job_type: BackgroundJobType::CRON, interval_secs: 0, cron, time_zone }
}

impl BackgroundScheduledConfig {
    pub fn new_interval_job(duration_secs: u64) -> (r: BackgroundScheduledConfig)
        ensures
            r@ == interval_schedule(duration_secs),
    {
        let r = BackgroundScheduledConfig { duration_secs, cron: String::new(), time_zone: None };
        assert(r@.cron =~= Seq::<char>::empty());
        r
    }

    pub fn new_cron_job(cron: String, time_zone: Option<String>) -> (r: BackgroundScheduledConfig)
        ensures
            r@ == cron_schedule(cron@, optional_view(time_zone)),
    {
        BackgroundScheduledConfig { duration_secs: 0, cron, time_zone }
    }

    /// The schedule of a job.
    pub fn from_params(inner: &BackgroundJobParams) -> (r: BackgroundScheduledConfig)
        ensures
            r@ == (ScheduledView {
                duration_secs: inner@.interval_secs,
                cron: inner@.cron,
                time_zone: inner@.time_zone,
            }),
    {
        BackgroundScheduledConfig {
            duration_secs: inner.scheduled_job_interval_secs,
            cron: inner.scheduled_job_cron.clone(),
            time_zone: clone_optional(&inner.scheduled_job_timezone),
        }
    }
}

impl Default for BackgroundScheduledConfig {
    fn default() -> (r: BackgroundScheduledConfig)
        ensures
            r@ == default_schedule(),
    {
        let r = BackgroundScheduledConfig { duration_secs: 1800, cron: String::new(), time_zone: None };
        assert(r@.cron =~= Seq::<char>::empty());
        r
    }
}

impl Default for BackgroundCompactionConfig {
    fn default() -> (r: BackgroundCompactionConfig)
        ensures
            r@ == (CompactionView {
                compact_mode: "one_shot"@,
                segment_limit: None,
                block_limit: None,
                scheduled_config: default_schedule(),
            }),
    {
        BackgroundCompactionConfig {
            compact_mode: "one_shot".to_owned(),
            segment_limit: None,
            block_limit: None,
            scheduled_config: BackgroundScheduledConfig::default(),
        }
    }
}

impl BackgroundJobParams {
    pub fn new_one_shot_job() -> (r: BackgroundJobParams)
        ensures
            r@ == one_shot_job(),
    {
        let r = BackgroundJobParams {
            job_type: BackgroundJobType::ONESHOT,
            scheduled_job_interval_secs: 0,
            scheduled_job_cron: String::new(),
            scheduled_job_timezone: None,
        };
        assert(r@.cron =~= Seq::<char>::empty());
        r
    }

    pub fn new_interval_job(secs: u64) -> (r: BackgroundJobParams)
        ensures
            r@ == interval_job(secs),
    {
        let r = BackgroundJobParams {
            job_type: BackgroundJobType::INTERVAL,
            scheduled_job_interval_secs: secs,
            scheduled_job_cron: String::new(),
            scheduled_job_timezone: None,
        };
        assert(r@.cron =~= Seq::<char>::empty());
        r
    }

    pub fn new_cron_job(cron: String, time_zone: Option<String>) -> (r: BackgroundJobParams)
        ensures
            r@ == cron_job(cron@, optional_view(time_zone)),
    {
        BackgroundJobParams {
            job_type: BackgroundJobType::CRON,
            scheduled_job_interval_secs: 0,
            scheduled_job_cron: cron,
            scheduled_job_timezone: time_zone,
        }
    }
}

impl Default for InnerBackgroundConfig {
    fn default() -> (r: InnerBackgroundConfig)
        ensures
            !r.enable,
            r.compaction@ == (InnerCompactionView {
                segment_limit: None,
                block_limit: None,
                params: one_shot_job(),
            }),
    {
        InnerBackgroundConfig {
            enable: false,
            compaction: InnerBackgroundCompactionConfig {
                segment_limit: None,
                block_limit: None,
                params: BackgroundJobParams::new_one_shot_job(),
            },
        }
    }
}

/// What a configuration is read as.
pub enum Reading {
    Job(JobView),
    EmptyCron,
    UnknownTimeZone,
    UnknownMode,
}

/// Reads the job that a compaction configuration asks for.
pub open spec fn read_job(c: CompactionView) -> Reading {
    if c.compact_mode == "one_shot"@ {
        Reading::Job(one_shot_job())
    } else if c.compact_mode == "interval"@ {
        Reading::Job(interval_job(c.scheduled_config.duration_secs))
    } else if c.compact_mode == "cron"@ {
        if c.scheduled_config.cron.len() == 0 {
            Reading::EmptyCron
        } else if c.scheduled_config.time_zone matches Some(tz) && !is_time_zone(tz) {
            Reading::UnknownTimeZone
        } else {
            Reading::Job(cron_job(c.scheduled_config.cron, c.scheduled_config.time_zone))
        }
    } else {
        Reading::UnknownMode
    }
}

/// What is said of a configuration that cannot be read.
pub open spec fn reading_error(c: CompactionView) -> Seq<char> {
    match read_job(c) {
        Reading::EmptyCron => "cron expression is empty"@,
        Reading::UnknownTimeZone => "invalid time_zone: "@ + "failed to parse timezone"@,
        _ => "invalid compact_mode: "@ + c.compact_mode,
    }
}

/// The configuration that asks for a job.
pub open spec fn written_config(i: InnerCompactionView) -> CompactionView {
    CompactionView {
        compact_mode: match i.params.job_type {
            BackgroundJobType::ONESHOT => "one_shot"@,
            BackgroundJobType::INTERVAL => "interval"@,
            BackgroundJobType::CRON => "cron"@,
        },
        segment_limit: i.segment_limit,
        block_limit: i.block_limit,
        scheduled_config: match i.params.job_type {
            BackgroundJobType::ONESHOT => default_schedule(),
            BackgroundJobType::INTERVAL => interval_schedule(i.params.interval_secs),
            BackgroundJobType::CRON => cron_schedule(i.params.cron, i.params.time_zone),
        },
    }
}

/// The result of reading a compaction configuration.
pub open spec fn is_reading(c: CompactionView, r: Result<InnerBackgroundCompactionConfig, ErrorCode>) -> bool {
    match read_job(c) {
        Reading::Job(params) => r matches Ok(i) && i@ == (InnerCompactionView {
            segment_limit: c.segment_limit,
            block_limit: c.block_limit,
            params,
        }),
        _ => r matches Err(ErrorCode::InvalidArgument(m)) && m@ == reading_error(c),
    }
}

impl BackgroundCompactionConfig {
    /// Reads the configuration.
    pub fn try_into(self) -> (r: Result<InnerBackgroundCompactionConfig, ErrorCode>)
        ensures
            is_reading(self@, r),
    {
        proof {
            reveal_strlit("one_shot");
            reveal_strlit("interval");
            reveal_strlit("cron");
        }
        let params = if same_text(self.compact_mode.as_str(), "one_shot") {
            BackgroundJobParams::new_one_shot_job()
        } else if same_text(self.compact_mode.as_str(), "interval") {
            BackgroundJobParams::new_interval_job(self.scheduled_config.duration_secs)
        } else if same_text(self.compact_mode.as_str(), "cron") {
            if self.scheduled_config.cron.as_str().unicode_len() == 0 {
                return Err(ErrorCode::InvalidArgument("cron expression is empty".to_owned()));
            }
            let time_zone = match &self.scheduled_config.time_zone {
                None => None,
                Some(name) => match find_time_zone(name.as_str()) {
                    Ok(found) => Some(found),
                    Err(e) => {
                        let mut m = "invalid time_zone: ".to_owned();
                        m.append(parse_error_text(&e).as_str());
                        return Err(ErrorCode::InvalidArgument(m));
                    },
                },
            };
            BackgroundJobParams::new_cron_job(self.scheduled_config.cron, time_zone)
        } else {
            let mut m = "invalid compact_mode: ".to_owned();
            m.append(self.compact_mode.as_str());
            return Err(ErrorCode::InvalidArgument(m));
        };
        Ok(
            InnerBackgroundCompactionConfig {
                segment_limit: self.segment_limit,
                block_limit: self.block_limit,
                params,
            },
        )
    }

    /// The configuration that asks for a job.
    pub fn from_inner(inner: InnerBackgroundCompactionConfig) -> (r: BackgroundCompactionConfig)
        ensures
            r@ == written_config(inner@),
    {
        match inner.params.job_type {
            BackgroundJobType::ONESHOT => BackgroundCompactionConfig {
                compact_mode: "one_shot".to_owned(),
                segment_limit: inner.segment_limit,
                block_limit: inner.block_limit,
                scheduled_config: BackgroundScheduledConfig::default(),
            },
            BackgroundJobType::INTERVAL => BackgroundCompactionConfig {
                compact_mode: "interval".to_owned(),
                segment_limit: inner.segment_limit,
                block_limit: inner.block_limit,
                scheduled_config: BackgroundScheduledConfig::new_interval_job(
                    inner.params.scheduled_job_interval_secs,
                ),
            },
            BackgroundJobType::CRON => BackgroundCompactionConfig {
                compact_mode: "cron".to_owned(),
                segment_limit: inner.segment_limit,
                block_limit: inner.block_limit,
                scheduled_config: BackgroundScheduledConfig::new_cron_job(
                    inner.params.scheduled_job_cron,
                    inner.params.scheduled_job_timezone,
                ),
            },
        }
    }
}

impl BackgroundConfig {
    /// Reads the configuration.
    pub fn try_into(self) -> (r: Result<InnerBackgroundConfig, ErrorCode>)
        ensures
            match read_job(self.compaction@) {
                Reading::Job(params) => r matches Ok(i) && i.enable == self.enable && i.compaction@ == (InnerCompactionView {
                    segment_limit: self.compaction.segment_limit,
                    block_limit: self.compaction.block_limit,
                    params,
                }),
                _ => r matches Err(ErrorCode::InvalidArgument(m)) && m@ == reading_error(self.compaction@),
            },
    {
        let enable = self.enable;
        match self.compaction.try_into() {
            Ok(compaction) => Ok(InnerBackgroundConfig { enable, compaction }),
            Err(e) => Err(e),
        }
    }

    /// The configuration that stands for what was read.
    pub fn from_inner(inner: InnerBackgroundConfig) -> (r: BackgroundConfig)
        ensures
            r.enable == inner.enable,
            r.compaction@ == written_config(inner.compaction@),
    {
        BackgroundConfig {
            enable: inner.enable,
            compaction: BackgroundCompactionConfig::from_inner(inner.compaction),
        }
    }
}

/// What is read from a configuration, written down and read again, is the same.
pub proof fn written_config_reads_back(c: CompactionView, params: JobView)
    requires
        read_job(c) == Reading::Job(params),
    ensures
        read_job(
            written_config(
                InnerCompactionView { segment_limit: c.segment_limit, block_limit: c.block_limit, params },
            ),
        ) == Reading::Job(params),
        written_config(
            InnerCompactionView { segment_limit: c.segment_limit, block_limit: c.block_limit, params },
        ).compact_mode == c.compact_mode,
{
    reveal_strlit("one_shot");
    reveal_strlit("interval");
    reveal_strlit("cron");
    assert("one_shot"@.len() == 8);
    assert("interval"@.len() == 8);
    assert("one_shot"@[0] == 'o');
    assert("interval"@[0] == 'i');
    assert("cron"@.len() == 4);
}

/// How a compaction is configured: once, at intervals of so many seconds, or by a cron expression,
/// which must not be empty and whose time zone must be known where one is given; no other mode is
/// known. The limits are taken over.
pub proof fn how_a_compaction_is_configured(c: CompactionView, r: Result<InnerBackgroundCompactionConfig, ErrorCode>)
    requires
        is_reading(c, r),
    ensures
        ({
            let once = c.compact_mode == "one_shot"@;
            let interval = c.compact_mode == "interval"@;
            let cron = c.compact_mode == "cron"@;
            let zone_known = c.scheduled_config.time_zone matches Some(tz) ==> is_time_zone(tz);
            &&& r is Ok <==> once || interval || (cron && c.scheduled_config.cron.len() > 0 && zone_known)
            &&& r is Err ==> r->Err_0 is InvalidArgument
            &&& r matches Ok(i) ==> {
                &&& i@.segment_limit == c.segment_limit
                &&& i@.block_limit == c.block_limit
                &&& once ==> i@.params.job_type == BackgroundJobType::ONESHOT
                &&& interval ==> i@.params.job_type == BackgroundJobType::INTERVAL && i@.params.interval_secs
                    == c.scheduled_config.duration_secs
                &&& cron ==> i@.params.job_type == BackgroundJobType::CRON && i@.params.cron == c.scheduled_config.cron
                    && i@.params.time_zone == c.scheduled_config.time_zone
            }
        }),
{
    reveal_strlit("one_shot");
    reveal_strlit("interval");
    reveal_strlit("cron");
    assert("one_shot"@[0] == 'o' && "interval"@[0] == 'i' && "cron"@[0] == 'c');
}

/// A schedule goes by its interval or by its cron expression, and half an hour is the interval that
/// is not given. A job knows by which of them it runs, or that it runs once.
pub proof fn schedules_and_jobs_say_when_to_run(secs: u64, cron: Seq<char>, zone: Option<Seq<char>>)
    ensures
        default_schedule() == interval_schedule(1800),
        interval_schedule(secs).duration_secs == secs,
        interval_schedule(secs).cron.len() == 0,
        interval_schedule(secs).time_zone is None,
        cron_schedule(cron, zone).duration_secs == 0,
        cron_schedule(cron, zone).cron == cron,
        cron_schedule(cron, zone).time_zone == zone,
        one_shot_job().job_type == BackgroundJobType::ONESHOT,
        one_shot_job().interval_secs == 0 && one_shot_job().cron.len() == 0 && one_shot_job().time_zone is None,
        interval_job(secs).job_type == BackgroundJobType::INTERVAL,
        interval_job(secs).interval_secs == secs,
        interval_job(secs).cron.len() == 0 && interval_job(secs).time_zone is None,
        cron_job(cron, zone).job_type == BackgroundJobType::CRON,
        cron_job(cron, zone).interval_secs == 0,
        cron_job(cron, zone).cron == cron && cron_job(cron, zone).time_zone == zone,
{
}

/// What is said of a configuration names what is wrong with it: the mode where it is none that is
/// known, and for a cron expression that it is missing or that its time zone is not known.
pub proof fn what_is_wrong_with_a_configuration(c: CompactionView)
    ensures
        ({
            let cron = c.compact_mode == "cron"@;
            let known = c.compact_mode == "one_shot"@ || c.compact_mode == "interval"@ || cron;
            let zone_known = c.scheduled_config.time_zone matches Some(tz) ==> is_time_zone(tz);
            &&& !known ==> reading_error(c) == "invalid compact_mode: "@ + c.compact_mode
            &&& cron && c.scheduled_config.cron.len() == 0 ==> reading_error(c) == "cron expression is empty"@
            &&& cron && c.scheduled_config.cron.len() > 0 && !zone_known ==> reading_error(c) == "invalid time_zone: "@
                + "failed to parse timezone"@
        }),
{
    reveal_strlit("one_shot");
    reveal_strlit("interval");
    reveal_strlit("cron");
    assert("one_shot"@.len() == 8 && "interval"@.len() == 8 && "cron"@.len() == 4);
}

}
