use vstd::prelude::*;

verus! {

/// The extension of a path, as `std::path::Path::extension` gives it and read
/// as text; it depends on the path's characters alone.
pub uninterp spec fn path_extension(p: Seq<char>) -> Option<Seq<char>>;

/// Relies on `std::path::Path::extension`, for the extension of a source path.
#[verifier::external_body]
fn extension_of(path: &str) -> (r: Option<String>)
    ensures
        r is None ==> path_extension(path@) is None,
        r matches Some(e) ==> path_extension(path@) == Some(e@),
{
    match std::path::Path::new(path).extension() {
        Some(e) => e.to_str().map(String::from),
        None => None,
    }
}

/// The one tabular format that ingestion reads.
pub open spec fn csv_extension() -> Seq<char> {
    seq!['c', 's', 'v']
}

pub open spec fn is_csv(ext: Option<Seq<char>>) -> bool {
    ext == Some(csv_extension())
}

/// Tells whether an extension is that of the supported format.
pub fn supported_extension(ext: &Option<String>) -> (r: bool)
    ensures
        r == (ext matches Some(e) && e@ == csv_extension()),
{
    match ext {
        Some(e) => {
            let t = e.as_str();
            let ok = t.unicode_len() == 3 && t.get_char(0) == 'c' && t.get_char(1) == 's'
                && t.get_char(2) == 'v';
            if ok {
                assert(t@ =~= csv_extension());
            }
            ok
        },
        None => false,
    }
}

/// Tells whether a source path names a file of the supported format.
pub fn is_supported_source(path: &str) -> (r: bool)
    ensures
        r == is_csv(path_extension(path@)),
{
    let ext = extension_of(path);
    supported_extension(&ext)
}

/// How an ingestion ended.
#[derive(Debug, Clone, Copy, PartialEq, Eq, Structural)]
pub enum Outcome {
    /// The records table was there already: nothing was done.
    AlreadyPopulated,
    /// The table was created and that many records were inserted.
    Imported(u64),
    /// The table was created, but the source is not of the supported format.
    UnsupportedFormat,
    /// A step failed; the error is the caller's to report.
    Failed,
}

/// Where an ingestion stands.
#[derive(Debug, Clone, Copy, PartialEq, Eq, Structural)]
pub enum Phase {
    Probing,
    CreatingSchema,
    Opening,
    Reading,
    Inserting,
    Finished(Outcome),
}

/// What the caller reports after doing an action.
#[derive(Debug, Clone, Copy, PartialEq, Eq, Structural)]
pub enum Event {
    /// Whether the records table is registered in the store.
    TableProbed(bool),
    SchemaCreated,
    SourceOpened,
    /// A row of the source was read and decoded into a record.
    RowRead,
    /// The last record read was inserted.
    RowInserted,
    /// The source has no more rows.
    SourceEnded,
    /// The action failed.
    Failed,
}

/// What the caller is to do next.
#[derive(Debug, Clone, Copy, PartialEq, Eq, Structural)]
pub enum Action {
    ProbeTable,
    CreateSchema,
    OpenSource,
    ReadRow,
    InsertRow,
    Finish(Outcome),
}

/// The decisions of loading a dataset into the store at most once: the
/// caller performs each action and reports the event that came of it.
#[derive(Debug, Clone, Copy, PartialEq, Eq, Structural)]
pub struct Ingestion {
    pub phase: Phase,
    pub source_supported: bool,
    pub inserted: u64,
}

impl Ingestion {
    pub open spec fn start(source_supported: bool) -> Ingestion {
        Ingestion { phase: Phase::Probing, source_supported, inserted: 0 }
    }

    pub open spec fn finish(self, o: Outcome) -> (Ingestion, Action) {
        (Ingestion { phase: Phase::Finished(o), ..self }, Action::Finish(o))
    }

    pub open spec fn go(self, p: Phase, a: Action) -> (Ingestion, Action) {
        (Ingestion { phase: p, ..self }, a)
    }

    /// The state and the action that follow an event.
    pub open spec fn next(self, e: Event) -> (Ingestion, Action) {
        match self.phase {
            Phase::Finished(o) => (self, Action::Finish(o)),
            Phase::Probing => match e {
                Event::TableProbed(true) => self.finish(Outcome::AlreadyPopulated),
                Event::TableProbed(false) => self.go(Phase::CreatingSchema, Action::CreateSchema),
                _ => self.finish(Outcome::Failed),
            },
            Phase::CreatingSchema => match e {
                Event::SchemaCreated => if self.source_supported {
                    self.go(Phase::Opening, Action::OpenSource)
                } else {
                    self.finish(Outcome::UnsupportedFormat)
                },
                _ => self.finish(Outcome::Failed),
            },
            Phase::Opening => match e {
                Event::SourceOpened => self.go(Phase::Reading, Action::ReadRow),
                _ => self.finish(Outcome::Failed),
            },
            Phase::Reading => match e {
                Event::RowRead => self.go(Phase::Inserting, Action::InsertRow),
                Event::SourceEnded => self.finish(Outcome::Imported(self.inserted)),
                _ => self.finish(Outcome::Failed),
            },
            Phase::Inserting => match e {
                Event::RowInserted => if self.inserted < u64::MAX {
                    (
                        Ingestion { phase: Phase::Reading, inserted: (self.inserted + 1) as u64, ..self },
                        Action::ReadRow,
                    )
                } else {
                    self.finish(Outcome::Failed)
                },
                _ => self.finish(Outcome::Failed),
            },
        }
    }

    /// The state after a run of events, and the actions asked for on the way.
    pub open spec fn run(self, events: Seq<Event>) -> (Ingestion, Seq<Action>)
        decreases events.len(),
    {
        if events.len() == 0 {
            (self, Seq::empty())
        } else {
            let (s, a) = self.next(events[0]);
            let (t, rest) = s.run(events.drop_first());
            (t, seq![a] + rest)
        }
    }

    /// A new ingestion from the source at `source_path`, and its first
    /// action: to look for the records table.
    pub fn new(source_path: &str) -> (r: (Ingestion, Action))
        ensures
            r.0 == Ingestion::start(is_csv(path_extension(source_path@))),
            r.1 == Action::ProbeTable,
    {
        let supported = is_supported_source(source_path);
        (Ingestion { phase: Phase::Probing, source_supported: supported, inserted: 0 }, Action::ProbeTable)
    }

    fn finish_with(&mut self, o: Outcome) -> (r: Action)
        ensures
            (*final(self), r) == old(self).finish(o),
    {
        self.phase = Phase::Finished(o);
        Action::Finish(o)
    }

    /// Takes in what came of the last action and says what to do next.
    pub fn step(&mut self, e: Event) -> (r: Action)
        ensures
            (*final(self), r) == old(self).next(e),
    {
        match self.phase {
            Phase::Finished(o) => Action::Finish(o),
            Phase::Probing => match e {
                Event::TableProbed(true) => self.finish_with(Outcome::AlreadyPopulated),
                Event::TableProbed(false) => {
                    self.phase = Phase::CreatingSchema;
                    Action::CreateSchema
                },
                _ => self.finish_with(Outcome::Failed),
            },
            Phase::CreatingSchema => match e {
                Event::SchemaCreated => {
                    if self.source_supported {
                        self.phase = Phase::Opening;
                        Action::OpenSource
                    } else {
                        self.finish_with(Outcome::UnsupportedFormat)
                    }
                },
                _ => self.finish_with(Outcome::Failed),
            },
            Phase::Opening => match e {
                Event::SourceOpened => {
                    self.phase = Phase::Reading;
                    Action::ReadRow
                },
                _ => self.finish_with(Outcome::Failed),
            },
            Phase::Reading => match e {
                Event::RowRead => {
                    self.phase = Phase::Inserting;
                    Action::InsertRow
                },
                Event::SourceEnded => {
                    let n = self.inserted;
                    self.finish_with(Outcome::Imported(n))
                },
                _ => self.finish_with(Outcome::Failed),
            },
            Phase::Inserting => match e {
                Event::RowInserted => {
                    if self.inserted < u64::MAX {
                        self.inserted = self.inserted + 1;
                        self.phase = Phase::Reading;
                        Action::ReadRow
                    } else {
                        self.finish_with(Outcome::Failed)
                    }
                },
                _ => self.finish_with(Outcome::Failed),
            },
        }
    }
}

/// Whether an action touches the source: opens it, reads a row or inserts one.
pub open spec fn touches_source(a: Action) -> bool {
    a is OpenSource || a is ReadRow || a is InsertRow
}

proof fn lemma_finished_stays(s: Ingestion, o: Outcome, events: Seq<Event>)
    requires
        s.phase == Phase::Finished(o),
    ensures
        s.run(events).0 == s,
        s.run(events).1.len() == events.len(),
        forall|i: int| 0 <= i < events.len() ==> #[trigger] s.run(events).1[i] == Action::Finish(o),
    decreases events.len(),
{
    if events.len() > 0 {
        lemma_finished_stays(s, o, events.drop_first());
        let acts = s.run(events).1;
        let rest = s.run(events.drop_first()).1;
        assert(acts == seq![Action::Finish(o)] + rest);
        assert forall|i: int| 0 <= i < events.len() implies #[trigger] acts[i] == Action::Finish(o) by {
            if i > 0 {
                assert(acts[i] == rest[i - 1]);
            }
        }
    }
}

/// Ingestion happens once per store: a run that finds no records table
/// first creates it, and a run that finds the table asks for nothing but to
/// finish, whatever comes after, so that a second run is a no-op.
pub proof fn lemma_ingestion_runs_once(source_supported: bool, events: Seq<Event>)
    ensures
        Ingestion::start(source_supported).next(Event::TableProbed(false)).1 == Action::CreateSchema,
        forall|i: int|
            0 <= i < events.len() + 1 ==> #[trigger] Ingestion::start(source_supported).run(
                seq![Event::TableProbed(true)] + events,
            ).1[i] == Action::Finish(Outcome::AlreadyPopulated),
{
    let s = Ingestion::start(source_supported);
    let all = seq![Event::TableProbed(true)] + events;
    let (t, a) = s.next(all[0]);
    assert(all.drop_first() == events);
    lemma_finished_stays(t, Outcome::AlreadyPopulated, events);
    let acts = s.run(all).1;
    assert forall|i: int| 0 <= i < events.len() + 1 implies #[trigger] acts[i] == Action::Finish(
        Outcome::AlreadyPopulated,
    ) by {
        if i > 0 {
            assert(acts[i] == t.run(events).1[i - 1]);
        }
    }
}

proof fn lemma_unsupported_stays_away(s: Ingestion, events: Seq<Event>)
    requires
        !s.source_supported,
        s.phase is Probing || s.phase is CreatingSchema || s.phase is Finished,
    ensures
        s.run(events).1.len() == events.len(),
        forall|i: int| 0 <= i < events.len() ==> !touches_source(#[trigger] s.run(events).1[i]),
    decreases events.len(),
{
    if events.len() > 0 {
        let (t, a) = s.next(events[0]);
        lemma_unsupported_stays_away(t, events.drop_first());
        let acts = s.run(events).1;
        let rest = t.run(events.drop_first()).1;
        assert forall|i: int| 0 <= i < events.len() implies !touches_source(#[trigger] acts[i]) by {
            if i > 0 {
                assert(acts[i] == rest[i - 1]);
            }
        }
    }
}

/// A source of another format than the supported one is never opened nor
/// read, and nothing is inserted, whatever the caller reports.
pub proof fn lemma_unsupported_source_is_never_read(events: Seq<Event>)
    ensures
        forall|i: int|
            0 <= i < events.len() ==> !touches_source(
                #[trigger] Ingestion::start(false).run(events).1[i],
            ),
{
    lemma_unsupported_stays_away(Ingestion::start(false), events);
}

/// How many of `acts` ask to insert a row.
pub open spec fn count_inserts(acts: Seq<Action>) -> nat
    decreases acts.len(),
{
    if acts.len() == 0 {
        0
    } else {
        (if acts[0] is InsertRow { 1nat } else { 0nat }) + count_inserts(acts.drop_first())
    }
}

proof fn lemma_import_count_from(s: Ingestion, events: Seq<Event>)
    requires
        s.phase matches Phase::Finished(Outcome::Imported(m)) ==> m == s.inserted,
    ensures
        s.run(events).0.phase matches Phase::Finished(Outcome::Imported(n)) ==> n == s.inserted + (
        if s.phase is Inserting {
            1nat
        } else {
            0nat
        }) + count_inserts(s.run(events).1),
    decreases events.len(),
{
    if events.len() > 0 {
        let (t, a) = s.next(events[0]);
        lemma_import_count_from(t, events.drop_first());
        let rest = t.run(events.drop_first()).1;
        assert((seq![a] + rest).drop_first() == rest);
        assert((seq![a] + rest)[0] == a);
        if let Phase::Finished(o) = t.phase {
            lemma_finished_stays(t, o, events.drop_first());
            lemma_no_inserts_when_finished(rest, o);
        }
    }
}

proof fn lemma_no_inserts_when_finished(acts: Seq<Action>, o: Outcome)
    requires
        forall|i: int| 0 <= i < acts.len() ==> acts[i] == Action::Finish(o),
    ensures
        count_inserts(acts) == 0,
    decreases acts.len(),
{
    if acts.len() > 0 {
        lemma_no_inserts_when_finished(acts.drop_first(), o);
    }
}

/// An import that runs to the end reports as many records as it asked the
/// caller to insert.
pub proof fn lemma_import_counts_insertions(source_supported: bool, events: Seq<Event>)
    ensures
        Ingestion::start(source_supported).run(events).0.phase matches Phase::Finished(
            Outcome::Imported(n),
        ) ==> n == count_inserts(Ingestion::start(source_supported).run(events).1),
{
    lemma_import_count_from(Ingestion::start(source_supported), events);
}

} // verus!
