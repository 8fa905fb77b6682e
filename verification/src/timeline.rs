//! The event timeline: typed, timestamped events collected from every
//! decoder, sorted once at the end by an explicit, stable sort step.

use vstd::prelude::*;
use vstd::string::StringExecFns;
use crate::time_codec::UtcInstant;

verus! {

/// The closed set of event categories the timeline can hold.
#[derive(Clone, Copy, Debug, PartialEq, Eq, Structural)]
pub enum EventType {
    FileCreation,
    FileModification,
    FileAccess,
    FileMftChange,
    UserLogon,
    ServiceInstallation,
    ProgramExecution,
}

/// The human-readable name of an event category.
pub open spec fn event_type_label(t: EventType) -> Seq<char> {
    match t {
        EventType::FileCreation => "File Creation"@,
        EventType::FileModification => "File Modification"@,
        EventType::FileAccess => "File Access"@,
        EventType::FileMftChange => "MFT Entry Changed"@,
        EventType::UserLogon => "User Logon"@,
        EventType::ServiceInstallation => "Service Installation"@,
        EventType::ProgramExecution => "Program Execution"@,
    }
}

impl EventType {
    /// The human-readable name of this category.
    pub fn label(&self) -> (r: &'static str)
        ensures
            r@ == event_type_label(*self),
    {
        match self {
            EventType::FileCreation => "File Creation",
            EventType::FileModification => "File Modification",
            EventType::FileAccess => "File Access",
            EventType::FileMftChange => "MFT Entry Changed",
            EventType::UserLogon => "User Logon",
            EventType::ServiceInstallation => "Service Installation",
            EventType::ProgramExecution => "Program Execution",
        }
    }
}

/// The mathematical model of one timeline event.
pub struct EventView {
    pub timestamp: int,
    pub event_type: EventType,
    pub description: Seq<char>,
    pub source_artifact: Seq<char>,
}

/// One normalized, categorized, timestamped output unit. Immutable once
/// constructed.
pub struct TimelineEvent {
    pub timestamp: UtcInstant,
    pub event_type: EventType,
    pub description: String,
    pub source_artifact: String,
}

impl View for TimelineEvent {
    type V = EventView;

    open spec fn view(&self) -> EventView {
        EventView {
            timestamp: self.timestamp.secs as int,
            event_type: self.event_type,
            description: self.description@,
            source_artifact: self.source_artifact@,
        }
    }
}

impl Clone for TimelineEvent {
    fn clone(&self) -> (res: Self)
        ensures
            res == *self,
    {
        TimelineEvent {
            timestamp: self.timestamp,
            event_type: self.event_type,
            description: self.description.clone(),
            source_artifact: self.source_artifact.clone(),
        }
    }
}

/// The models of a sequence of events.
pub open spec fn views_of_events(s: Seq<TimelineEvent>) -> Seq<EventView> {
    Seq::new(s.len(), |i: int| s[i]@)
}

/// The description text attached to a file event of the given category.
pub open spec fn file_event_description(event_type: EventType, file_path: Seq<char>) -> Seq<char> {
    match event_type {
        EventType::FileCreation => "File '"@ + file_path + "' was created."@,
        EventType::FileModification => "File '"@ + file_path + "' was modified."@,
        EventType::FileAccess => "File '"@ + file_path + "' was accessed."@,
        EventType::FileMftChange => "MFT entry for '"@ + file_path + "' was changed."@,
        _ => "File '"@ + file_path + "' event occurred."@,
    }
}

/// The description text attached to a user-logon event.
pub open spec fn user_logon_description(username: Seq<char>, source_ip: Seq<char>) -> Seq<char> {
    "User '"@ + username + "' logged on from source IP "@ + source_ip
}

/// The description text attached to a service-installation event.
pub open spec fn service_installation_description(service_name: Seq<char>) -> Seq<char> {
    "Service '"@ + service_name + "' was installed."@
}

/// The description text attached to a program-execution event.
pub open spec fn program_execution_description(executable_name: Seq<char>) -> Seq<char> {
    "Executable '"@ + executable_name + "' was run."@
}

/// Builds `prefix`, then `middle`, then `suffix` as one string.
fn concat3(prefix: &str, middle: &str, suffix: &str) -> (r: String)
    ensures
        r@ == prefix@ + middle@ + suffix@,
{
    let mut s = String::from_str(prefix);
    s.append(middle);
    s.append(suffix);
    s
}

/// An ordered, growable collection of timeline events, unordered at
/// insertion time and made ordered-by-timestamp by an explicit sort step.
pub struct Timeline {
    pub events: Vec<TimelineEvent>,
}

impl View for Timeline {
    type V = Seq<EventView>;

    open spec fn view(&self) -> Seq<EventView> {
        views_of_events(self.events@)
    }
}

impl Timeline {
    /// Creates an empty timeline.
    pub fn new() -> (r: Timeline)
        ensures
            r@ == Seq::<EventView>::empty(),
    {
        let t = Timeline { events: Vec::new() };
        proof {
            assert(t@ =~= Seq::<EventView>::empty());
        }
        t
    }

    /// Appends one already-built event.
    pub fn add_event(&mut self, event: TimelineEvent)
        ensures
            final(self)@ == old(self)@.push(event@),
    {
        let ghost before = self.events@;
        self.events.push(event);
        proof {
            assert(self@ =~= views_of_events(before).push(event@));
        }
    }

    /// Appends a file event whose description follows the category's
    /// template.
    pub fn add_file_event(
        &mut self,
        timestamp: UtcInstant,
        event_type: EventType,
        file_path: &str,
        source: &str,
    )
        ensures
            final(self)@ == old(self)@.push(
                EventView {
                    timestamp: timestamp.secs as int,
                    event_type: event_type,
                    description: file_event_description(event_type, file_path@),
                    source_artifact: source@,
                },
            ),
    {
        let description = match event_type {
            EventType::FileCreation => concat3("File '", file_path, "' was created."),
            EventType::FileModification => concat3("File '", file_path, "' was modified."),
            EventType::FileAccess => concat3("File '", file_path, "' was accessed."),
            EventType::FileMftChange => concat3("MFT entry for '", file_path, "' was changed."),
            _ => concat3("File '", file_path, "' event occurred."),
        };
        self.add_event(
            TimelineEvent {
                timestamp,
                event_type,
                description,
                source_artifact: source.to_owned(),
            },
        );
    }

    /// Appends a user-logon event.
    pub fn add_user_logon(&mut self, timestamp: UtcInstant, username: &str, source_ip: &str)
        ensures
            final(self)@ == old(self)@.push(
                EventView {
                    timestamp: timestamp.secs as int,
                    event_type: EventType::UserLogon,
                    description: user_logon_description(username@, source_ip@),
                    source_artifact: "Security.evtx"@,
                },
            ),
    {
        let mut description = String::from_str("User '");
        description.append(username);
        description.append("' logged on from source IP ");
        description.append(source_ip);
        self.add_event(
            TimelineEvent {
                timestamp,
                event_type: EventType::UserLogon,
                description,
                source_artifact: "Security.evtx".to_owned(),
            },
        );
    }

    /// Appends a service-installation event.
    pub fn add_service_installation(&mut self, timestamp: UtcInstant, service_name: &str)
        ensures
            final(self)@ == old(self)@.push(
                EventView {
                    timestamp: timestamp.secs as int,
                    event_type: EventType::ServiceInstallation,
                    description: service_installation_description(service_name@),
                    source_artifact: "System.evtx"@,
                },
            ),
    {
        let description = concat3("Service '", service_name, "' was installed.");
        self.add_event(
            TimelineEvent {
                timestamp,
                event_type: EventType::ServiceInstallation,
                description,
                source_artifact: "System.evtx".to_owned(),
            },
        );
    }

    /// Appends a program-execution event, labelled with the artifact the
    /// execution was read from.
    pub fn add_program_execution(
        &mut self,
        timestamp: UtcInstant,
        executable_name: &str,
        prefetch_file: &str,
    )
        ensures
            final(self)@ == old(self)@.push(
                EventView {
                    timestamp: timestamp.secs as int,
                    event_type: EventType::ProgramExecution,
                    description: program_execution_description(executable_name@),
                    source_artifact: prefetch_file@,
                },
            ),
    {
        let description = concat3("Executable '", executable_name, "' was run.");
        self.add_event(
            TimelineEvent {
                timestamp,
                event_type: EventType::ProgramExecution,
                description,
                source_artifact: prefetch_file.to_owned(),
            },
        );
    }

    /// Sorts the timeline ascending by timestamp with a stable sort: events
    /// with equal timestamps keep their append order.
    pub fn sort(&mut self)
        ensures
            final(self)@ == spec_stable_sort(old(self)@),
            sorted_by_timestamp(final(self)@),
    {
        let ghost input = self@;
        let n = self.events.len();
        let mut out: Vec<TimelineEvent> = Vec::new();
        let mut i: usize = 0;
        while i < n
            invariant
                n == self.events@.len(),
                i <= n,
                input == views_of_events(self.events@),
                views_of_events(out@) == spec_stable_sort(input.take(i as int)),
            decreases n - i,
        {
            proof {
                lemma_stable_sort_sorted(input.take(i as int));
            }
            let e = (&self.events[i]).clone();
            proof {
                assert(e@ == input[i as int]);
                assert(input.take(i as int + 1).drop_last() =~= input.take(i as int));
                assert(input.take(i as int + 1).last() == input[i as int]);
            }
            insert_event_sorted(&mut out, e);
            i = i + 1;
        }
        proof {
            assert(input.take(n as int) =~= input);
        }
        self.events = out;
        proof {
            lemma_stable_sort_sorted(input);
        }
    }

    /// The number of events collected so far.
    pub fn len(&self) -> (n: usize)
        ensures
            n == self@.len(),
    {
        self.events.len()
    }

    /// Whether no event has been collected.
    pub fn is_empty(&self) -> (b: bool)
        ensures
            b == (self@.len() == 0),
    {
        self.events.is_empty()
    }
}

/// Whether the events appear in non-decreasing timestamp order.
pub open spec fn sorted_by_timestamp(s: Seq<EventView>) -> bool {
    forall|i: int, j: int| 0 <= i <= j < s.len() ==> s[i].timestamp <= s[j].timestamp
}

/// Inserts `e` after every element whose timestamp is at most `e`'s, so an
/// element appended later never moves in front of an equal-timestamped one.
pub open spec fn stable_insert(s: Seq<EventView>, e: EventView) -> Seq<EventView>
    decreases s.len(),
{
    if s.len() == 0 {
        seq![e]
    } else if s.last().timestamp <= e.timestamp {
        s.push(e)
    } else {
        stable_insert(s.drop_last(), e).push(s.last())
    }
}

/// Insertion sort over event models; stable by construction.
pub open spec fn spec_stable_sort(s: Seq<EventView>) -> Seq<EventView>
    decreases s.len(),
{
    if s.len() == 0 {
        Seq::empty()
    } else {
        stable_insert(spec_stable_sort(s.drop_last()), s.last())
    }
}

/// A stable insertion is an insertion at the position found by walking back
/// over the strictly-later elements.
proof fn lemma_stable_insert_is_insert_at(s: Seq<EventView>, e: EventView, k: int)
    requires
        0 <= k <= s.len(),
        forall|i: int| k <= i < s.len() ==> s[i].timestamp > e.timestamp,
        k > 0 ==> s[k - 1].timestamp <= e.timestamp,
    ensures
        stable_insert(s, e) == s.insert(k, e),
    decreases s.len(),
{
    if s.len() == 0 {
        assert(stable_insert(s, e) =~= s.insert(0, e));
    } else if s.last().timestamp <= e.timestamp {
        assert(k == s.len());
        assert(s.push(e) =~= s.insert(k, e));
    } else {
        assert(k < s.len());
        lemma_stable_insert_is_insert_at(s.drop_last(), e, k);
        assert(stable_insert(s.drop_last(), e).push(s.last()) =~= s.insert(k, e));
    }
}

/// Every element of a stable insertion is bounded if the inputs are.
proof fn lemma_stable_insert_bounded(s: Seq<EventView>, e: EventView, bound: int)
    requires
        forall|i: int| 0 <= i < s.len() ==> s[i].timestamp <= bound,
        e.timestamp <= bound,
    ensures
        stable_insert(s, e).len() == s.len() + 1,
        forall|i: int| 0 <= i < s.len() + 1 ==> stable_insert(s, e)[i].timestamp <= bound,
    decreases s.len(),
{
    if s.len() == 0 {
    } else if s.last().timestamp <= e.timestamp {
    } else {
        lemma_stable_insert_bounded(s.drop_last(), e, bound);
    }
}

/// A stable insertion into a sorted sequence stays sorted.
proof fn lemma_stable_insert_sorted(s: Seq<EventView>, e: EventView)
    requires
        sorted_by_timestamp(s),
    ensures
        stable_insert(s, e).len() == s.len() + 1,
        sorted_by_timestamp(stable_insert(s, e)),
    decreases s.len(),
{
    if s.len() == 0 {
    } else if s.last().timestamp <= e.timestamp {
    } else {
        lemma_stable_insert_sorted(s.drop_last(), e);
        lemma_stable_insert_bounded(s.drop_last(), e, s.last().timestamp);
    }
}

/// A stable insertion adds exactly the inserted element to the contents.
proof fn lemma_stable_insert_multiset(s: Seq<EventView>, e: EventView)
    ensures
        stable_insert(s, e).to_multiset() == s.to_multiset().insert(e),
    decreases s.len(),
{
    broadcast use vstd::seq_lib::group_to_multiset_ensures;

    if s.len() == 0 {
        assert(seq![e] =~= Seq::<EventView>::empty().push(e));
        assert(Seq::<EventView>::empty().push(e).to_multiset() =~= Seq::<
            EventView,
        >::empty().to_multiset().insert(e));
    } else if s.last().timestamp <= e.timestamp {
    } else {
        lemma_stable_insert_multiset(s.drop_last(), e);
        assert(s.drop_last().push(s.last()) =~= s);
        assert(stable_insert(s.drop_last(), e).push(s.last()).to_multiset() =~= s.drop_last()
            .to_multiset()
            .insert(e)
            .insert(s.last()));
        assert(s.drop_last().to_multiset().insert(e).insert(s.last()) =~= s.drop_last()
            .to_multiset()
            .insert(s.last())
            .insert(e));
    }
}

/// The events carrying timestamp `k`.
pub open spec fn has_timestamp(k: int) -> spec_fn(EventView) -> bool {
    |x: EventView| x.timestamp == k
}

/// The events with any one timestamp come out of a stable insertion in the
/// order they went in, with `e` appended if it carries that timestamp.
proof fn lemma_stable_insert_filter(s: Seq<EventView>, e: EventView, k: int)
    ensures
        stable_insert(s, e).filter(has_timestamp(k)) == if e.timestamp == k {
            s.filter(has_timestamp(k)).push(e)
        } else {
            s.filter(has_timestamp(k))
        },
    decreases s.len(),
{
    reveal(Seq::filter);
    let p = has_timestamp(k);
    if s.len() == 0 {
        assert(seq![e].drop_last() =~= s);
        assert(seq![e].last() == e);
        if e.timestamp == k {
            assert(stable_insert(s, e).filter(p) == s.filter(p).push(e));
        } else {
            assert(stable_insert(s, e).filter(p) == s.filter(p));
        }
    } else if s.last().timestamp <= e.timestamp {
        assert(s.push(e).drop_last() =~= s);
        assert(s.push(e).last() == e);
        if e.timestamp == k {
            assert(stable_insert(s, e).filter(p) == s.filter(p).push(e));
        } else {
            assert(stable_insert(s, e).filter(p) == s.filter(p));
        }
    } else {
        lemma_stable_insert_filter(s.drop_last(), e, k);
        let t = stable_insert(s.drop_last(), e);
        let u = t.push(s.last());
        assert(u.drop_last() =~= t);
        assert(u.last() == s.last());
        assert(u.filter(p) == if p(s.last()) {
            t.filter(p).push(s.last())
        } else {
            t.filter(p)
        });
        assert(s.filter(p) == if p(s.last()) {
            s.drop_last().filter(p).push(s.last())
        } else {
            s.drop_last().filter(p)
        });
        if e.timestamp == k {
            // the skipped-over element is strictly later than e, so it does
            // not carry timestamp k
            assert(!p(s.last()));
            assert(stable_insert(s, e).filter(p) == s.filter(p).push(e));
        } else {
            assert(stable_insert(s, e).filter(p) == s.filter(p));
        }
    }
}

/// The stable sort of a sequence is sorted and keeps exactly the input's
/// contents.
pub proof fn lemma_stable_sort_sorted(s: Seq<EventView>)
    ensures
        spec_stable_sort(s).len() == s.len(),
        sorted_by_timestamp(spec_stable_sort(s)),
        spec_stable_sort(s).to_multiset() == s.to_multiset(),
    decreases s.len(),
{
    broadcast use vstd::seq_lib::group_to_multiset_ensures;

    if s.len() == 0 {
    } else {
        lemma_stable_sort_sorted(s.drop_last());
        lemma_stable_insert_sorted(spec_stable_sort(s.drop_last()), s.last());
        lemma_stable_insert_multiset(spec_stable_sort(s.drop_last()), s.last());
        assert(s.drop_last().push(s.last()) =~= s);
        assert(s.drop_last().push(s.last()).to_multiset() =~= s.drop_last().to_multiset().insert(
            s.last(),
        ));
    }
}

/// Law: the sort is stable. For every timestamp, the subsequence of events
/// carrying it is unchanged by the sort, so events with equal timestamps
/// keep their relative append order; and the output is non-decreasing by
/// timestamp and holds exactly the appended events.
pub proof fn lemma_sort_stable(s: Seq<EventView>, k: int)
    ensures
        sorted_by_timestamp(spec_stable_sort(s)),
        spec_stable_sort(s).to_multiset() == s.to_multiset(),
        spec_stable_sort(s).filter(has_timestamp(k)) == s.filter(has_timestamp(k)),
    decreases s.len(),
{
    reveal(Seq::filter);
    lemma_stable_sort_sorted(s);
    let p = |x: EventView| x.timestamp == k;
    if s.len() == 0 {
    } else {
        lemma_sort_stable(s.drop_last(), k);
        lemma_stable_insert_filter(spec_stable_sort(s.drop_last()), s.last(), k);
        assert(s.drop_last().push(s.last()) =~= s);
    }
}

/// Inserts one event into a timestamp-sorted vector at its stable position.
fn insert_event_sorted(out: &mut Vec<TimelineEvent>, e: TimelineEvent)
    requires
        sorted_by_timestamp(views_of_events(old(out)@)),
    ensures
        views_of_events(final(out)@) == stable_insert(views_of_events(old(out)@), e@),
{
    let ghost before = views_of_events(out@);
    let mut k = out.len();
    while k > 0 && out[k - 1].timestamp.secs > e.timestamp.secs
        invariant
            k <= out@.len(),
            before == views_of_events(out@),
            forall|i: int| k <= i < out@.len() ==> before[i].timestamp > e@.timestamp,
        decreases k,
    {
        k = k - 1;
    }
    proof {
        lemma_stable_insert_is_insert_at(before, e@, k as int);
    }
    out.insert(k, e);
    proof {
        assert(views_of_events(out@) =~= before.insert(k as int, e@));
    }
}

} // verus!
