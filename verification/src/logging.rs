use vstd::prelude::*;

use crate::ext::now_rfc3339;

verus! {

/// The line a log entry is written as: level, timestamp, service, message.
pub open spec fn spec_format_message(
    level: Seq<char>,
    timestamp: Seq<char>,
    service: Seq<char>,
    message: Seq<char>,
) -> Seq<char> {
    "["@ + level + "] "@ + timestamp + " ["@ + service + "] - "@ + message
}

/// Formats log lines on behalf of one named service. Writing the lines out
/// is the embedding program's business; this type only builds their text.
#[derive(Debug, Clone)]
pub struct LoggingService {
    pub service_name: String,
}

impl LoggingService {
    /// A logger for the service with the given name.
    pub fn new(service_name: &str) -> (r: Self)
        ensures
            r.service_name@ == service_name@,
    {
        LoggingService { service_name: service_name.to_owned() }
    }

    /// The log line for one entry, with the timestamp supplied by the caller.
    pub fn format_message(&self, level: &str, timestamp: &str, message: &str) -> (r: String)
        ensures
            r@ == spec_format_message(level@, timestamp@, self.service_name@, message@),
    {
        let mut out = String::new();
        out.append("[");
        out.append(level);
        out.append("] ");
        out.append(timestamp);
        out.append(" [");
        out.append(self.service_name.as_str());
        out.append("] - ");
        out.append(message);
        proof {
            assert(out@ =~= spec_format_message(level@, timestamp@, self.service_name@, message@));
        }
        out
    }

    /// The log line for one entry, stamped with the clock's current reading.
    pub fn format_now(&self, level: &str, message: &str) -> (r: String)
        ensures
            exists|ts: Seq<char>|
                r@ == spec_format_message(level@, ts, self.service_name@, message@),
    {
        let ts = now_rfc3339();
        let r = self.format_message(level, ts.as_str(), message);
        proof {
            assert(r@ == spec_format_message(level@, ts@, self.service_name@, message@));
        }
        r
    }
}

} // verus!
