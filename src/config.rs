use vstd::prelude::*;

verus! {

/// How much the service logs.
#[derive(Clone, Debug, PartialEq, Eq)]
pub struct LogConfig {
    /// A tracing level: `error`, `warn`, `info`, `debug` or `trace`.
    pub level: String,
}

impl LogConfig {
    /// The tracing filter of the service: the events of `target` at the
    /// configured level, the HTTP layer at `debug`, and rejected requests at
    /// `trace`.
    pub fn filter_directives(&self, target: &str) -> (r: String)
        ensures
            r@ == target@ + "="@ + self.level@ + ",tower_http=debug,axum::rejection=trace"@,
    {
        let mut r = String::from_str(target);
        r.append("=");
        r.append(self.level.as_str());
        r.append(",tower_http=debug,axum::rejection=trace");
        r
    }
}

} // verus!
