//! Events and the small capabilities that producers and consumers share.
use vstd::prelude::*;

verus! {

/// Severity of an event.
#[derive(PartialEq, Eq, Structural, Clone, Copy, Debug)]
pub enum Level {
    TRACE,
    DEBUG,
    INFO,
    WARN,
    ERROR,
}

/// An immutable record: identity, time, severity, source and description.
/// `id` is the 128-bit big-endian value of a uuid; `time` is in microseconds
/// since the Unix epoch.
#[derive(Debug)]
pub struct Event {
    pub id: u128,
    pub time: u128,
    pub name: String,
    pub description: String,
    pub category: String,
    pub level: Level,
    pub source: String,
}

/// Something with a name.
pub trait Named {
    /// The name, as text.
    spec fn spec_name(&self) -> Seq<char>;

    fn name(&self) -> (r: &str)
        ensures
            r@ == self.spec_name(),
    ;
}

/// Where producers and consumers publish the events they emit.
pub trait EventBus {
    fn publish(&self, event: Event);
}

/// Relies on `uuid::Uuid::new_v4`: a random id, of which nothing is known.
#[verifier::external_body]
fn random_id() -> (r: u128) {
    uuid::Uuid::new_v4().as_u128()
}

/// Relies on `std::time::SystemTime::now`: microseconds since the Unix epoch,
/// or 0 for a clock set before it. Nothing is known of the value.
#[verifier::external_body]
fn now_micros() -> (r: u128) {
    match std::time::SystemTime::now().duration_since(std::time::SystemTime::UNIX_EPOCH) {
        Ok(d) => d.as_micros(),
        Err(_) => 0,
    }
}

impl Event {
    /// An event with a fresh random id, stamped with the current time.
    pub fn new(source: &dyn Named, name: &str, description: &str, category: &str, level: Level) -> (r:
        Event)
        ensures
            r.name@ == name@,
            r.description@ == description@,
            r.category@ == category@,
            r.level == level,
            r.source@ == source.spec_name(),
    {
        let id = random_id();
        let time = now_micros();
        Event::with_identity(id, time, source.name(), name, description, category, level)
    }

    /// An event with the given identity and time.
    pub fn with_identity(
        id: u128,
        time: u128,
        source: &str,
        name: &str,
        description: &str,
        category: &str,
        level: Level,
    ) -> (r: Event)
        ensures
            r.id == id,
            r.time == time,
            r.source@ == source@,
            r.name@ == name@,
            r.description@ == description@,
            r.category@ == category@,
            r.level == level,
    {
        Event {
            id,
            time,
            name: name.to_owned(),
            description: description.to_owned(),
            category: category.to_owned(),
            level,
            source: source.to_owned(),
        }
    }
}

/// A source with a fixed placeholder name.
pub struct EmptyNamed {}

impl Named for EmptyNamed {
    open spec fn spec_name(&self) -> Seq<char> {
        "NAMED"@
    }

    fn name(&self) -> (r: &str) {
        "NAMED"
    }
}

/// A bus that drops whatever is published on it.
pub struct EmptyEventBus {}

impl EventBus for EmptyEventBus {
    fn publish(&self, _event: Event) {
    }
}

} // verus!
