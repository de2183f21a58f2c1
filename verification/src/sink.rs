//! The sink: its configuration, the addresses it talks to, and what it
//! sends.

use vstd::prelude::*;
use crate::metric::{metric_views, Metric, MetricView};
use crate::outside::{clock_seconds, parse_uri, uri_parsed};
use crate::series::DatadogRequest;
use crate::tags::tag_texts;
use crate::text::join;
use crate::tracker::{elapsed, fits, interval_fits, IntervalTracker};
use crate::translate::{encode_events, encoded};

verus! {

/// What the sink is set up with.
#[derive(Clone, Debug, PartialEq, Eq)]
pub struct DatadogConfig {
    /// Put before every metric name, with a dot; empty for none.
    pub namespace: String,
    /// Where the service is, without a path.
    pub host: String,
    pub api_key: String,
}

/// Why a sink cannot be built.
#[derive(Debug)]
pub enum BuildError {
    /// The host does not make an address.
    InvalidHost { host: String, source: http::uri::InvalidUri },
}

/// Why the service counts as unwell.
#[derive(Clone, Copy, Debug, PartialEq, Eq, Structural)]
pub enum HealthcheckError {
    /// It answered with a status other than 200.
    UnexpectedStatus { status: u16 },
}

/// The host that is used where none is set.
pub fn default_host() -> (host: String)
    ensures
        host@ == "https://api.datadoghq.com"@,
{
    String::from_str("https://api.datadoghq.com")
}

/// The name under which this kind of sink is known.
pub fn sink_type() -> (name: &'static str)
    ensures
        name@ == "datadog_metrics"@,
{
    "datadog_metrics"
}

/// The address that series are posted to.
pub open spec fn series_endpoint(host: Seq<char>) -> Seq<char> {
    host + "/api/v1/series"@
}

/// The address that tells whether the key is valid.
pub open spec fn validate_endpoint(host: Seq<char>) -> Seq<char> {
    host + "/api/v1/validate"@
}

/// What becomes of a parsed address: the address itself, or the error that
/// names the host.
pub open spec fn host_uri_of(
    host: Seq<char>,
    parsed: Result<http::Uri, http::uri::InvalidUri>,
    result: Result<http::Uri, BuildError>,
) -> bool {
    match parsed {
        Ok(uri) => result == Ok::<http::Uri, BuildError>(uri),
        Err(source) => result matches Err(BuildError::InvalidHost { host: named, source: cause })
            && named@ == host && cause == source,
    }
}

/// Turns the outcome of parsing an address made from `host` into the outcome
/// of building.
pub fn host_uri(host: &str, parsed: Result<http::Uri, http::uri::InvalidUri>) -> (result: Result<
    http::Uri,
    BuildError,
>)
    ensures
        host_uri_of(host@, parsed, result),
{
    match parsed {
        Ok(uri) => Ok(uri),
        Err(source) => Err(BuildError::InvalidHost { host: String::from_str(host), source }),
    }
}

/// The address that series are posted to on `host`.
pub fn build_uri(host: &str) -> (result: Result<http::Uri, BuildError>)
    ensures
        host_uri_of(host@, uri_parsed(series_endpoint(host@)), result),
{
    let text = join(host, "/api/v1/series", "");
    proof {
        reveal_strlit("");
        assert(text@ =~= series_endpoint(host@));
    }
    host_uri(host, parse_uri(text.as_str()))
}

/// The address on `host` that tells whether the key is valid.
pub fn build_healthcheck_uri(host: &str) -> (result: Result<http::Uri, BuildError>)
    ensures
        host_uri_of(host@, uri_parsed(validate_endpoint(host@)), result),
{
    let text = join(host, "/api/v1/validate", "");
    proof {
        reveal_strlit("");
        assert(text@ =~= validate_endpoint(host@));
    }
    host_uri(host, parse_uri(text.as_str()))
}

/// Judges the status with which the service answered the health check: 200
/// is well, anything else is not.
pub fn check_status(status: u16) -> (result: Result<(), HealthcheckError>)
    ensures
        status == 200 ==> result == Ok::<(), HealthcheckError>(()),
        status != 200 ==> result == Err::<(), HealthcheckError>(
            HealthcheckError::UnexpectedStatus { status },
        ),
{
    if status == 200 {
        Ok(())
    } else {
        Err(HealthcheckError::UnexpectedStatus { status })
    }
}

/// How a request is made.
#[derive(Clone, Copy, Debug, PartialEq, Eq, Structural)]
pub enum HttpMethod {
    Get,
    Post,
}

/// What a request is made of, but for its address and its body.
#[derive(Clone, Debug, PartialEq, Eq)]
pub struct RequestParts {
    pub method: HttpMethod,
    /// Names with their values, in the order in which they are set.
    pub headers: Vec<(String, String)>,
}

/// The headers of a health check: the key.
pub open spec fn healthcheck_headers(api_key: Seq<char>) -> Seq<(Seq<char>, Seq<char>)> {
    seq![("DD-API-KEY"@, api_key)]
}

/// The headers of a post of series: the content type, then the key.
pub open spec fn series_headers(api_key: Seq<char>) -> Seq<(Seq<char>, Seq<char>)> {
    seq![("Content-Type"@, "application/json"@), ("DD-API-KEY"@, api_key)]
}

/// The request that asks whether the key is valid: a GET with the key.
pub fn healthcheck_request(api_key: &str) -> (parts: RequestParts)
    ensures
        parts.method == HttpMethod::Get,
        tag_texts(parts.headers@) == healthcheck_headers(api_key@),
{
    let mut headers: Vec<(String, String)> = Vec::new();
    headers.push((String::from_str("DD-API-KEY"), String::from_str(api_key)));
    assert(tag_texts(headers@) =~= healthcheck_headers(api_key@));
    RequestParts { method: HttpMethod::Get, headers }
}

/// The request that carries series: a POST of JSON with the key.
pub fn series_request(api_key: &str) -> (parts: RequestParts)
    ensures
        parts.method == HttpMethod::Post,
        tag_texts(parts.headers@) == series_headers(api_key@),
{
    let mut headers: Vec<(String, String)> = Vec::new();
    headers.push((String::from_str("Content-Type"), String::from_str("application/json")));
    headers.push((String::from_str("DD-API-KEY"), String::from_str(api_key)));
    assert(tag_texts(headers@) =~= series_headers(api_key@));
    RequestParts { method: HttpMethod::Post, headers }
}

/// A sink that is ready to encode batches.
pub struct DatadogSink {
    config: DatadogConfig,
    last_sent_timestamp: IntervalTracker,
    uri: http::Uri,
}

impl DatadogConfig {
    /// The configuration with the given key: no namespace, and the default
    /// host.
    pub fn new(api_key: &str) -> (config: DatadogConfig)
        ensures
            config.namespace@.len() == 0,
            config.host@ == "https://api.datadoghq.com"@,
            config.api_key@ == api_key@,
    {
        DatadogConfig {
            namespace: String::new(),
            host: default_host(),
            api_key: String::from_str(api_key),
        }
    }

    /// Builds the sink at the second `now`: makes the address from the host,
    /// and takes `now` as the time of the last flush.
    pub fn build_at(&self, now: i64) -> (result: Result<DatadogSink, BuildError>)
        ensures
            match result {
                Ok(sink) => uri_parsed(series_endpoint(self.host@)) == Ok::<
                    http::Uri,
                    http::uri::InvalidUri,
                >(sink.address()) && sink.namespace() == self.namespace@ && sink.api_key()
                    == self.api_key@ && sink.last_sent() == now,
                Err(BuildError::InvalidHost { host, source }) => uri_parsed(
                    series_endpoint(self.host@),
                ) == Err::<http::Uri, http::uri::InvalidUri>(source) && host@ == self.host@,
            },
    {
        match build_uri(self.host.as_str()) {
            Ok(uri) => {
                let config = DatadogConfig {
                    namespace: self.namespace.clone(),
                    host: self.host.clone(),
                    api_key: self.api_key.clone(),
                };
                Ok(DatadogSink { config, last_sent_timestamp: IntervalTracker::new(now), uri })
            },
            Err(error) => Err(error),
        }
    }

    /// Builds the sink now: as `build_at`, at the second that the clock
    /// reads.
    pub fn build(&self) -> (result: Result<DatadogSink, BuildError>)
        ensures
            match result {
                Ok(sink) => uri_parsed(series_endpoint(self.host@)) == Ok::<
                    http::Uri,
                    http::uri::InvalidUri,
                >(sink.address()) && sink.namespace() == self.namespace@ && sink.api_key()
                    == self.api_key@,
                Err(BuildError::InvalidHost { host, source }) => uri_parsed(
                    series_endpoint(self.host@),
                ) == Err::<http::Uri, http::uri::InvalidUri>(source) && host@ == self.host@,
            },
    {
        self.build_at(clock_seconds())
    }
}

impl DatadogSink {
    /// The namespace that names are put under.
    pub closed spec fn namespace(&self) -> Seq<char> {
        self.config.namespace@
    }

    pub closed spec fn api_key(&self) -> Seq<char> {
        self.config.api_key@
    }

    /// The address that series are posted to.
    pub closed spec fn address(&self) -> http::Uri {
        self.uri
    }

    /// The second of the last flush.
    pub closed spec fn last_sent(&self) -> i64 {
        self.last_sent_timestamp@
    }

    /// Whether `after` is this sink but for the time of its last flush.
    pub open spec fn same_setup(&self, after: &DatadogSink) -> bool {
        &&& after.namespace() == self.namespace()
        &&& after.api_key() == self.api_key()
        &&& after.address() == self.address()
    }

    /// The address that series are posted to.
    pub fn uri(&self) -> (uri: &http::Uri)
        ensures
            *uri == self.address(),
    {
        &self.uri
    }

    /// What a post of series is made of, but for its address and its body.
    pub fn request_parts(&self) -> (parts: RequestParts)
        ensures
            parts.method == HttpMethod::Post,
            tag_texts(parts.headers@) == series_headers(self.api_key()),
    {
        series_request(self.config.api_key.as_str())
    }

    /// What a flush at the second `now` gives: where the seconds since the
    /// last flush fit an interval, the batch encoded with them, and `now` as
    /// the time of the last flush; else nothing, and the sink as it was.
    pub open spec fn flushed(
        &self,
        events: Seq<MetricView>,
        now: i64,
        after: &DatadogSink,
        request: Option<DatadogRequest>,
    ) -> bool {
        &&& self.same_setup(after)
        &&& match request {
            Some(request) => {
                &&& interval_fits(self.last_sent(), now)
                &&& after.last_sent() == now
                &&& exists|clock: Seq<i64>|
                    clock.len() == events.len() && #[trigger] encoded(
                        events,
                        (now - self.last_sent()) as i64,
                        self.namespace(),
                        clock,
                    ) == request@
            },
            None => !interval_fits(self.last_sent(), now) && after.last_sent() == self.last_sent(),
        }
    }

    /// Flushes a batch at the second `now`: exchanges `now` for the time of
    /// the last flush, and encodes the batch with the seconds between the two
    /// as its interval. Where those seconds do not fit an interval, nothing
    /// is encoded and the sink stays as it was.
    pub fn encode_batch_at(&mut self, events: Vec<Metric>, now: i64) -> (request: Option<
        DatadogRequest,
    >)
        ensures
            old(self).flushed(metric_views(events@), now, final(self), request),
    {
        if !fits(self.last_sent_timestamp.last_sent(), now) {
            return None;
        }
        let previous = self.last_sent_timestamp.exchange(now);
        let interval = elapsed(previous, now);
        let ghost given = metric_views(events@);
        let request = encode_events(events, interval, self.config.namespace.as_str());
        proof {
            let clock = choose|clock: Seq<i64>|
                clock.len() == given.len() && #[trigger] encoded(
                    given,
                    interval,
                    self.namespace(),
                    clock,
                ) == request@;
            assert(encoded(given, (now - old(self).last_sent()) as i64, old(self).namespace(), clock)
                == request@);
        }
        Some(request)
    }

    /// Flushes a batch now: as `encode_batch_at`, at the second that the
    /// clock reads.
    pub fn encode_batch(&mut self, events: Vec<Metric>) -> (request: Option<DatadogRequest>)
        ensures
            exists|now: i64|
                #[trigger] old(self).flushed(metric_views(events@), now, final(self), request),
    {
        let now = clock_seconds();
        self.encode_batch_at(events, now)
    }
}

} // verus!
