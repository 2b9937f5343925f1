use vstd::prelude::*;
use vstd::string::StringExecFns;
use crate::codec::{decode_block_spec, enc_block};
use crate::db::{event_included, extrinsic_included, Database};
use crate::records::{
    events_v, extrinsics_v, lemma_events_v_push, lemma_extrinsics_v_push, BlockInfo, BlockInfoV,
    EventFilterV, EventInfo, EventInfoV, ExtrinsicInfo, ExtrinsicInfoV, StoredBlock, StoredBlockV,
};
use crate::store::{now_unix, StoreError};

verus! {

// ============================================================================
// The feed-facing shape of a block.  The external feed resolves names and
// renders values on a best-effort basis; `None` stands for a resolution or
// rendering failure, which projection degrades to a placeholder instead of
// dropping the item.
// ============================================================================

/// One event as delivered by the feed.
pub struct RawEvent {
    pub pallet: String,
    pub variant: String,
    pub data: Option<String>,
}

/// Mathematical image of a `RawEvent`.
#[verifier::ext_equal]
pub struct RawEventV {
    pub pallet: Seq<char>,
    pub variant: Seq<char>,
    pub data: Option<Seq<char>>,
}

impl View for RawEvent {
    type V = RawEventV;

    open spec fn view(&self) -> RawEventV {
        RawEventV {
            pallet: self.pallet@,
            variant: self.variant@,
            data: match self.data {
                Some(d) => Some(d@),
                None => None,
            },
        }
    }
}

/// The views of a sequence of raw events, elementwise.
pub open spec fn raw_events_v(s: Seq<RawEvent>) -> Seq<RawEventV> {
    s.map_values(|e: RawEvent| e@)
}

/// One extrinsic as delivered by the feed: `action` is `None` when metadata
/// resolution failed, `params` is `None` when rendering failed.
pub struct RawExtrinsic {
    pub index: u32,
    pub hash: String,
    pub action: Option<String>,
    pub params: Option<String>,
    pub events: Vec<RawEvent>,
}

/// Mathematical image of a `RawExtrinsic`.
#[verifier::ext_equal]
pub struct RawExtrinsicV {
    pub index: u32,
    pub hash: Seq<char>,
    pub action: Option<Seq<char>>,
    pub params: Option<Seq<char>>,
    pub events: Seq<RawEventV>,
}

impl View for RawExtrinsic {
    type V = RawExtrinsicV;

    open spec fn view(&self) -> RawExtrinsicV {
        RawExtrinsicV {
            index: self.index,
            hash: self.hash@,
            action: match self.action {
                Some(a) => Some(a@),
                None => None,
            },
            params: match self.params {
                Some(p) => Some(p@),
                None => None,
            },
            events: raw_events_v(self.events@),
        }
    }
}

/// The views of a sequence of raw extrinsics, elementwise.
pub open spec fn raw_extrinsics_v(s: Seq<RawExtrinsic>) -> Seq<RawExtrinsicV> {
    s.map_values(|x: RawExtrinsic| x@)
}

/// One finalized block as delivered by the feed.
pub struct RawBlock {
    pub number: u32,
    pub hash: String,
    pub extrinsics: Vec<RawExtrinsic>,
}

/// Mathematical image of a `RawBlock`.
#[verifier::ext_equal]
pub struct RawBlockV {
    pub number: u32,
    pub hash: Seq<char>,
    pub extrinsics: Seq<RawExtrinsicV>,
}

impl View for RawBlock {
    type V = RawBlockV;

    open spec fn view(&self) -> RawBlockV {
        RawBlockV {
            number: self.number,
            hash: self.hash@,
            extrinsics: raw_extrinsics_v(self.extrinsics@),
        }
    }
}

// ============================================================================
// Projection: raw block -> filtered record, a pure function.
// ============================================================================

/// The qualified action name used for filtering and for the record: the
/// resolved name, or the placeholder when resolution failed.
pub open spec fn action_name_v(x: RawExtrinsicV) -> Seq<char> {
    match x.action {
        Some(a) => a,
        None => "unknown"@,
    }
}

/// The record of one raw event: rendering failure degrades to the empty
/// string.
pub open spec fn project_event(e: RawEventV) -> EventInfoV {
    EventInfoV {
        pallet: e.pallet,
        variant: e.variant,
        data: match e.data {
            Some(d) => d,
            None => Seq::empty(),
        },
    }
}

/// The events of one extrinsic that survive the event rules, in order.
pub open spec fn filtered_events(evf: Seq<EventFilterV>, es: Seq<RawEventV>) -> Seq<EventInfoV>
    decreases es.len(),
{
    if es.len() == 0 {
        Seq::empty()
    } else {
        let rest = filtered_events(evf, es.skip(1));
        if event_included(evf, es[0].pallet, es[0].variant) {
            seq![project_event(es[0])] + rest
        } else {
            rest
        }
    }
}

/// The record of one included extrinsic.
pub open spec fn project_extrinsic(evf: Seq<EventFilterV>, x: RawExtrinsicV) -> ExtrinsicInfoV {
    ExtrinsicInfoV {
        index: x.index,
        hash: x.hash,
        action: action_name_v(x),
        params: match x.params {
            Some(p) => p,
            None => Seq::empty(),
        },
        events: filtered_events(evf, x.events),
    }
}

/// The filtered record of a block's extrinsics: an excluded extrinsic is
/// omitted whole, events and all; the included ones keep their order.
pub open spec fn project_extrinsics(
    evf: Seq<EventFilterV>,
    exf: Seq<Seq<char>>,
    xs: Seq<RawExtrinsicV>,
) -> Seq<ExtrinsicInfoV>
    decreases xs.len(),
{
    if xs.len() == 0 {
        Seq::empty()
    } else {
        let rest = project_extrinsics(evf, exf, xs.skip(1));
        if extrinsic_included(exf, action_name_v(xs[0])) {
            seq![project_extrinsic(evf, xs[0])] + rest
        } else {
            rest
        }
    }
}

/// How many events the projected extrinsics carry in all.
pub open spec fn projected_event_count(ps: Seq<ExtrinsicInfoV>) -> nat
    decreases ps.len(),
{
    if ps.len() == 0 {
        0
    } else {
        ps[0].events.len() + projected_event_count(ps.skip(1))
    }
}

pub open spec fn min_nat(a: nat, b: nat) -> nat {
    if a < b {
        a
    } else {
        b
    }
}

fn clone_event(e: &EventInfo) -> (r: EventInfo)
    ensures
        r@ == e@,
{
    EventInfo { pallet: e.pallet.clone(), variant: e.variant.clone(), data: e.data.clone() }
}

fn clone_extrinsic(x: &ExtrinsicInfo) -> (r: ExtrinsicInfo)
    ensures
        r@ == x@,
{
    let mut events: Vec<EventInfo> = Vec::new();
    let n = x.events.len();
    let mut i: usize = 0;
    proof {
        assert(events_v(events@) =~= x@.events.take(0));
    }
    while i < n
        invariant
            n == x.events.len(),
            0 <= i <= n,
            events_v(events@) == x@.events.take(i as int),
        decreases n - i,
    {
        let ev = clone_event(&x.events[i]);
        let ghost prev = events@;
        events.push(ev);
        proof {
            lemma_events_v_push(prev, ev);
            assert(ev@ == x@.events[i as int]);
            assert(x@.events.take(i + 1) =~= x@.events.take(i as int).push(x@.events[i as int]));
        }
        i = i + 1;
    }
    proof {
        assert(x@.events.take(n as int) =~= x@.events);
    }
    let r = ExtrinsicInfo {
        index: x.index,
        hash: x.hash.clone(),
        action: x.action.clone(),
        params: x.params.clone(),
        events,
    };
    proof {
        assert(r@ =~= x@);
    }
    r
}

fn clone_extrinsics(v: &Vec<ExtrinsicInfo>) -> (r: Vec<ExtrinsicInfo>)
    ensures
        extrinsics_v(r@) == extrinsics_v(v@),
{
    let mut out: Vec<ExtrinsicInfo> = Vec::new();
    let n = v.len();
    let mut i: usize = 0;
    proof {
        assert(extrinsics_v(out@) =~= extrinsics_v(v@).take(0));
    }
    while i < n
        invariant
            n == v.len(),
            0 <= i <= n,
            extrinsics_v(out@) == extrinsics_v(v@).take(i as int),
        decreases n - i,
    {
        let x = clone_extrinsic(&v[i]);
        let ghost prev = out@;
        out.push(x);
        proof {
            lemma_extrinsics_v_push(prev, x);
            assert(x@ == extrinsics_v(v@)[i as int]);
            assert(extrinsics_v(v@).take(i + 1) =~= extrinsics_v(v@).take(i as int).push(
                extrinsics_v(v@)[i as int],
            ));
        }
        i = i + 1;
    }
    proof {
        assert(extrinsics_v(v@).take(n as int) =~= extrinsics_v(v@));
    }
    out
}

fn project_events(db: &Database, es: &Vec<RawEvent>) -> (r: Vec<EventInfo>)
    ensures
        events_v(r@) == filtered_events(db.event_filters_v(), raw_events_v(es@)),
{
    let evs = Ghost(raw_events_v(es@));
    let mut out: Vec<EventInfo> = Vec::new();
    let n = es.len();
    let mut i: usize = 0;
    proof {
        assert(evs@.skip(0) =~= evs@);
        assert(events_v(out@) =~= Seq::<EventInfoV>::empty());
        assert(events_v(out@) + filtered_events(db.event_filters_v(), evs@) =~= filtered_events(
            db.event_filters_v(),
            evs@,
        ));
    }
    while i < n
        invariant
            n == es.len(),
            0 <= i <= n,
            evs@ == raw_events_v(es@),
            filtered_events(db.event_filters_v(), evs@) == events_v(out@) + filtered_events(
                db.event_filters_v(),
                evs@.skip(i as int),
            ),
        decreases n - i,
    {
        let e = &es[i];
        let included = db.should_include_event(e.pallet.as_str(), e.variant.as_str());
        proof {
            assert(evs@[i as int] == es@[i as int]@);
            assert(evs@.skip(i as int)[0] == evs@[i as int]);
            assert(evs@.skip(i as int).skip(1) =~= evs@.skip(i + 1));
        }
        if included {
            let data = match &e.data {
                Some(d) => d.clone(),
                None => String::new(),
            };
            let rec = EventInfo { pallet: e.pallet.clone(), variant: e.variant.clone(), data };
            let ghost prev = out@;
            let ghost rest = filtered_events(db.event_filters_v(), evs@.skip(i + 1));
            out.push(rec);
            proof {
                assert(rec@ =~= project_event(evs@[i as int]));
                lemma_events_v_push(prev, rec);
                assert(events_v(prev) + (seq![project_event(evs@[i as int])] + rest) =~= events_v(
                    prev,
                ).push(rec@) + rest);
            }
        }
        i = i + 1;
    }
    proof {
        assert(evs@.skip(n as int) =~= Seq::<RawEventV>::empty());
        assert(events_v(out@) + filtered_events(db.event_filters_v(), evs@.skip(n as int))
            =~= events_v(out@));
    }
    out
}

/// Project a raw block under the database's filter rules: the retained
/// extrinsics with their retained events, in order, and the total number of
/// retained events (saturating at the machine limit).
pub fn project_block(db: &Database, raw: &RawBlock) -> (r: (Vec<ExtrinsicInfo>, usize))
    ensures
        extrinsics_v(r.0@) == project_extrinsics(
            db.event_filters_v(),
            db.extrinsic_filters_v(),
            raw@.extrinsics,
        ),
        r.1 as nat == min_nat(
            projected_event_count(
                project_extrinsics(db.event_filters_v(), db.extrinsic_filters_v(), raw@.extrinsics),
            ),
            usize::MAX as nat,
        ),
{
    let xs = Ghost(raw@.extrinsics);
    let mut out: Vec<ExtrinsicInfo> = Vec::new();
    let mut count: usize = 0;
    let ghost mut true_count: nat = 0nat;
    let n = raw.extrinsics.len();
    let mut i: usize = 0;
    proof {
        assert(xs@.skip(0) =~= xs@);
        assert(extrinsics_v(out@) =~= Seq::<ExtrinsicInfoV>::empty());
        assert(extrinsics_v(out@) + project_extrinsics(
            db.event_filters_v(),
            db.extrinsic_filters_v(),
            xs@,
        ) =~= project_extrinsics(db.event_filters_v(), db.extrinsic_filters_v(), xs@));
    }
    while i < n
        invariant
            n == raw.extrinsics.len(),
            0 <= i <= n,
            xs@ == raw@.extrinsics,
            project_extrinsics(db.event_filters_v(), db.extrinsic_filters_v(), xs@)
                == extrinsics_v(out@) + project_extrinsics(
                db.event_filters_v(),
                db.extrinsic_filters_v(),
                xs@.skip(i as int),
            ),
            projected_event_count(
                project_extrinsics(db.event_filters_v(), db.extrinsic_filters_v(), xs@),
            ) == true_count + projected_event_count(
                project_extrinsics(
                    db.event_filters_v(),
                    db.extrinsic_filters_v(),
                    xs@.skip(i as int),
                ),
            ),
            count as nat == min_nat(true_count, usize::MAX as nat),
        decreases n - i,
    {
        let x = &raw.extrinsics[i];
        let action = match &x.action {
            Some(a) => a.clone(),
            None => String::from_str("unknown"),
        };
        proof {
            assert(xs@[i as int] == raw.extrinsics@[i as int]@);
            assert(xs@.skip(i as int)[0] == xs@[i as int]);
            assert(xs@.skip(i as int).skip(1) =~= xs@.skip(i + 1));
            assert(action@ == action_name_v(xs@[i as int]));
        }
        let included = db.should_include_extrinsic(action.as_str());
        if included {
            let params = match &x.params {
                Some(p) => p.clone(),
                None => String::new(),
            };
            let events = project_events(db, &x.events);
            let ne = events.len();
            let rec = ExtrinsicInfo { index: x.index, hash: x.hash.clone(), action, params, events };
            let ghost prev = out@;
            let ghost rest = project_extrinsics(
                db.event_filters_v(),
                db.extrinsic_filters_v(),
                xs@.skip(i + 1),
            );
            out.push(rec);
            count = count.saturating_add(ne);
            proof {
                assert(xs@[i as int].events == raw_events_v(x.events@));
                assert(rec@ =~= project_extrinsic(db.event_filters_v(), xs@[i as int]));
                lemma_extrinsics_v_push(prev, rec);
                assert(extrinsics_v(prev) + (seq![rec@] + rest) =~= extrinsics_v(prev).push(rec@)
                    + rest);
                assert((seq![rec@] + rest)[0] == rec@);
                assert((seq![rec@] + rest).skip(1) =~= rest);
                assert(projected_event_count(seq![rec@] + rest) == rec@.events.len()
                    + projected_event_count(rest));
                assert(rec@.events.len() == ne as nat);
                true_count = true_count + ne as nat;
            }
        }
        i = i + 1;
    }
    proof {
        assert(xs@.skip(n as int) =~= Seq::<RawExtrinsicV>::empty());
        assert(extrinsics_v(out@) + Seq::<ExtrinsicInfoV>::empty() =~= extrinsics_v(out@));
    }
    (out, count)
}

// ============================================================================
// Ingestion: one step of the pipeline per delivered block.
// ============================================================================

/// What one delivery ended as.
pub enum IngestOutcome {
    /// The block was projected, written, and the live view replaced.
    Stored,
    /// A record for this number already existed; nothing was changed.
    Skipped,
    /// The write failed; the store and the view are unchanged.
    Failed(StoreError),
}

/// The record a successful ingestion of `raw` at time `ts` writes.
pub open spec fn stored_record_v(
    evf: Seq<EventFilterV>,
    exf: Seq<Seq<char>>,
    raw: RawBlockV,
    ts: i64,
) -> StoredBlockV {
    StoredBlockV {
        number: raw.number,
        hash: raw.hash,
        extrinsics: project_extrinsics(evf, exf, raw.extrinsics),
        timestamp: ts,
    }
}

/// How one delivery relates the store rows and the live view before and
/// after, for each outcome.  A `Stored` outcome on a number that was already
/// present can arise only when the duplicate check's own read failed at the
/// backend; the conservative choice is then to write rather than to drop the
/// block.
pub open spec fn ingest_post(
    pre_rows: Map<u32, Seq<char>>,
    evf: Seq<EventFilterV>,
    exf: Seq<Seq<char>>,
    pre_view: BlockInfoV,
    raw: RawBlockV,
    ts: i64,
    r: IngestOutcome,
    post_rows: Map<u32, Seq<char>>,
    post_view: BlockInfoV,
) -> bool {
    &&& (r is Skipped ==> post_rows == pre_rows && post_view == pre_view
        && pre_rows.dom().contains(raw.number) && decode_block_spec(pre_rows[raw.number]) is Some)
    &&& (r matches IngestOutcome::Failed(e) ==> post_rows == pre_rows && post_view == pre_view
        && e is Backend)
    &&& (r is Stored ==> ({
        let rec = stored_record_v(evf, exf, raw, ts);
        &&& post_rows == pre_rows.insert(raw.number, enc_block(rec))
        &&& decode_block_spec(post_rows[raw.number]) == Some(rec)
        &&& post_view.number == raw.number
        &&& post_view.hash == raw.hash
        &&& post_view.extrinsics == rec.extrinsics
        &&& post_view.extrinsics_count as nat == rec.extrinsics.len()
        &&& post_view.events_count as nat == min_nat(
            projected_event_count(rec.extrinsics),
            usize::MAX as nat,
        )
    }))
}

/// One step of the pipeline at a given ingestion time: duplicate check,
/// projection, durable write, then — only on a successful write — a wholesale
/// replacement of the live view.
pub fn ingest_block_at(
    db: &mut Database,
    view: &mut BlockInfo,
    raw: &RawBlock,
    timestamp: i64,
) -> (r: IngestOutcome)
    ensures
        final(db).event_filters_v() == old(db).event_filters_v(),
        final(db).extrinsic_filters_v() == old(db).extrinsic_filters_v(),
        ingest_post(
            old(db).rows(),
            old(db).event_filters_v(),
            old(db).extrinsic_filters_v(),
            old(view)@,
            raw@,
            timestamp,
            r,
            final(db).rows(),
            final(view)@,
        ),
        !old(db).rows().dom().contains(raw.number) ==> !(r is Skipped),
{
    match db.get_block(raw.number) {
        Ok(Some(_)) => {
            return IngestOutcome::Skipped;
        },
        _ => {},
    }
    let (extrinsics, events_count) = project_block(db, raw);
    let extrinsics_count = extrinsics.len();
    let shown = clone_extrinsics(&extrinsics);
    let record = StoredBlock {
        number: raw.number,
        hash: raw.hash.clone(),
        extrinsics,
        timestamp,
    };
    proof {
        assert(record@.extrinsics == project_extrinsics(
            old(db).event_filters_v(),
            old(db).extrinsic_filters_v(),
            raw@.extrinsics,
        ));
    }
    match db.store_block(&record) {
        Err(e) => IngestOutcome::Failed(e),
        Ok(()) => {
            view.number = raw.number;
            view.hash = raw.hash.clone();
            view.extrinsics_count = extrinsics_count;
            view.events_count = events_count;
            view.extrinsics = shown;
            IngestOutcome::Stored
        },
    }
}

/// One step of the pipeline stamped with the wall clock.
pub fn ingest_block(db: &mut Database, view: &mut BlockInfo, raw: &RawBlock) -> (r: IngestOutcome)
    ensures
        final(db).event_filters_v() == old(db).event_filters_v(),
        final(db).extrinsic_filters_v() == old(db).extrinsic_filters_v(),
        exists|ts: i64|
            ingest_post(
                old(db).rows(),
                old(db).event_filters_v(),
                old(db).extrinsic_filters_v(),
                old(view)@,
                raw@,
                ts,
                r,
                final(db).rows(),
                final(view)@,
            ),
        !old(db).rows().dom().contains(raw.number) ==> !(r is Skipped),
{
    let ts = now_unix();
    let r = ingest_block_at(db, view, raw, ts);
    proof {
        assert(ingest_post(
            old(db).rows(),
            old(db).event_filters_v(),
            old(db).extrinsic_filters_v(),
            old(view)@,
            raw@,
            ts,
            r,
            final(db).rows(),
            final(view)@,
        ));
    }
    r
}

// ============================================================================
// Laws.
// ============================================================================

/// An excluded extrinsic leaves no trace: projecting a block is the same as
/// projecting the block with that extrinsic removed, so none of its events
/// reach the record or the event count, however they would fare under the
/// event rules.
pub proof fn lemma_excluded_extrinsic_removed(
    evf: Seq<EventFilterV>,
    exf: Seq<Seq<char>>,
    xs: Seq<RawExtrinsicV>,
    i: int,
)
    requires
        0 <= i < xs.len(),
        !extrinsic_included(exf, action_name_v(xs[i])),
    ensures
        project_extrinsics(evf, exf, xs) == project_extrinsics(evf, exf, xs.remove(i)),
        projected_event_count(project_extrinsics(evf, exf, xs)) == projected_event_count(
            project_extrinsics(evf, exf, xs.remove(i)),
        ),
    decreases i,
{
    if i == 0 {
        assert(xs.remove(0) =~= xs.skip(1));
    } else {
        assert(xs.remove(i)[0] == xs[0]);
        assert(xs.remove(i).skip(1) =~= xs.skip(1).remove(i - 1));
        assert(xs.skip(1)[i - 1] == xs[i]);
        lemma_excluded_extrinsic_removed(evf, exf, xs.skip(1), i - 1);
    }
}

/// Right after a successful ingestion of a block, the live view carries that
/// block's number and the store returns, under that number, a record whose
/// extrinsics are exactly the view's.
pub proof fn lemma_view_store_consistency(
    pre_rows: Map<u32, Seq<char>>,
    evf: Seq<EventFilterV>,
    exf: Seq<Seq<char>>,
    pre_view: BlockInfoV,
    raw: RawBlockV,
    ts: i64,
    post_rows: Map<u32, Seq<char>>,
    post_view: BlockInfoV,
)
    requires
        ingest_post(
            pre_rows,
            evf,
            exf,
            pre_view,
            raw,
            ts,
            IngestOutcome::Stored,
            post_rows,
            post_view,
        ),
    ensures
        post_view.number == raw.number,
        post_rows.dom().contains(raw.number),
        decode_block_spec(post_rows[raw.number]) matches Some(b) && b.number == post_view.number
            && b.extrinsics == post_view.extrinsics,
{
}

/// Dedup: once a block number has been stored, a later delivery of that
/// number leaves the stored record word for word as the first write left it,
/// on every path that does not write anew — and the only path that writes
/// anew is the one where the duplicate check's own read failed at the
/// backend.
pub proof fn lemma_dedup_invariant(
    rows0: Map<u32, Seq<char>>,
    evf: Seq<EventFilterV>,
    exf: Seq<Seq<char>>,
    view0: BlockInfoV,
    raw1: RawBlockV,
    ts1: i64,
    rows1: Map<u32, Seq<char>>,
    view1: BlockInfoV,
    raw2: RawBlockV,
    ts2: i64,
    r2: IngestOutcome,
    rows2: Map<u32, Seq<char>>,
    view2: BlockInfoV,
)
    requires
        ingest_post(rows0, evf, exf, view0, raw1, ts1, IngestOutcome::Stored, rows1, view1),
        ingest_post(rows1, evf, exf, view1, raw2, ts2, r2, rows2, view2),
        raw2.number == raw1.number,
        !(r2 is Stored),
    ensures
        rows2 == rows1,
        rows2.dom().contains(raw1.number),
        decode_block_spec(rows2[raw1.number]) == Some(stored_record_v(evf, exf, raw1, ts1)),
{
}

/// One delivery per entry: entry `i` carries the raw block, its timestamp,
/// the outcome, and the store rows and view after it; each entry's states
/// follow from the one before by `ingest_post`.
pub open spec fn ingest_run(
    evf: Seq<EventFilterV>,
    exf: Seq<Seq<char>>,
    rows0: Map<u32, Seq<char>>,
    view0: BlockInfoV,
    steps: Seq<(RawBlockV, i64, IngestOutcome, Map<u32, Seq<char>>, BlockInfoV)>,
) -> bool
    decreases steps.len(),
{
    steps.len() == 0 || {
        let s = steps[0];
        &&& ingest_post(rows0, evf, exf, view0, s.0, s.1, s.2, s.3, s.4)
        &&& ingest_run(evf, exf, s.3, s.4, steps.skip(1))
    }
}

/// Dedup over a whole run: once the store holds a record for number `n`,
/// every later delivery sequence leaves that row word for word unchanged, as
/// long as no delivery of `n` in it stored anew — and a delivery of `n` can
/// store anew only when its own duplicate-check read failed at the backend.
pub proof fn lemma_dedup_run(
    evf: Seq<EventFilterV>,
    exf: Seq<Seq<char>>,
    rows0: Map<u32, Seq<char>>,
    view0: BlockInfoV,
    steps: Seq<(RawBlockV, i64, IngestOutcome, Map<u32, Seq<char>>, BlockInfoV)>,
    n: u32,
)
    requires
        ingest_run(evf, exf, rows0, view0, steps),
        rows0.dom().contains(n),
        decode_block_spec(rows0[n]) is Some,
        forall|i: int|
            0 <= i < steps.len() ==> ((#[trigger] steps[i]).0.number == n ==> !(steps[i].2
                is Stored)),
    ensures
        forall|i: int|
            0 <= i < steps.len() ==> (#[trigger] steps[i]).3.dom().contains(n) && steps[i].3[n]
                == rows0[n],
    decreases steps.len(),
{
    if steps.len() > 0 {
        let s = steps[0];
        assert(s.3.dom().contains(n) && s.3[n] == rows0[n]) by {
            if s.2 is Stored {
                assert(s.0.number != n);
                assert(s.3 == rows0.insert(s.0.number, enc_block(stored_record_v(evf, exf, s.0, s.1))));
            }
        }
        assert(forall|i: int|
            0 <= i < steps.skip(1).len() ==> ((#[trigger] steps.skip(1)[i]).0.number == n
                ==> !(steps.skip(1)[i].2 is Stored))) by {
            assert(forall|i: int|
                0 <= i < steps.skip(1).len() ==> #[trigger] steps.skip(1)[i] == steps[i + 1]);
        }
        lemma_dedup_run(evf, exf, s.3, s.4, steps.skip(1), n);
        assert forall|i: int| 0 <= i < steps.len() implies (#[trigger] steps[i]).3.dom().contains(n)
            && steps[i].3[n] == rows0[n] by {
            if i > 0 {
                assert(steps.skip(1)[i - 1] == steps[i]);
                assert(steps.skip(1)[i - 1].3.dom().contains(n) && steps.skip(1)[i - 1].3[n]
                    == s.3[n]);
            }
        }
    }
}

/// The dedup invariant of the spec, over a whole run: after the first
/// successful projection and write of a block number, any sequence of later
/// deliveries — in which, per the duplicate check, no delivery of that number
/// stored anew — leaves the store returning exactly the first write's record
/// for that number.
pub proof fn lemma_dedup_first_write_run(
    evf: Seq<EventFilterV>,
    exf: Seq<Seq<char>>,
    rows0: Map<u32, Seq<char>>,
    view0: BlockInfoV,
    raw1: RawBlockV,
    ts1: i64,
    rows1: Map<u32, Seq<char>>,
    view1: BlockInfoV,
    steps: Seq<(RawBlockV, i64, IngestOutcome, Map<u32, Seq<char>>, BlockInfoV)>,
)
    requires
        ingest_post(rows0, evf, exf, view0, raw1, ts1, IngestOutcome::Stored, rows1, view1),
        ingest_run(evf, exf, rows1, view1, steps),
        forall|i: int|
            0 <= i < steps.len() ==> ((#[trigger] steps[i]).0.number == raw1.number ==> !(
            steps[i].2 is Stored)),
    ensures
        forall|i: int|
            0 <= i < steps.len() ==> (#[trigger] steps[i]).3.dom().contains(raw1.number)
                && decode_block_spec(steps[i].3[raw1.number]) == Some(
                stored_record_v(evf, exf, raw1, ts1),
            ),
{
    lemma_dedup_run(evf, exf, rows1, view1, steps, raw1.number);
}

/// Every write files the record under its own number, so ingestion keeps
/// the store well formed: each decodable row decodes to a record carrying
/// the row's own key.
pub proof fn lemma_ingest_preserves_rows_wf(
    pre_rows: Map<u32, Seq<char>>,
    evf: Seq<EventFilterV>,
    exf: Seq<Seq<char>>,
    pre_view: BlockInfoV,
    raw: RawBlockV,
    ts: i64,
    r: IngestOutcome,
    post_rows: Map<u32, Seq<char>>,
    post_view: BlockInfoV,
)
    requires
        crate::db::rows_wf(pre_rows),
        ingest_post(pre_rows, evf, exf, pre_view, raw, ts, r, post_rows, post_view),
    ensures
        crate::db::rows_wf(post_rows),
{
    if r is Stored {
        let rec = stored_record_v(evf, exf, raw, ts);
        assert forall|k: u32| #[trigger] post_rows.dom().contains(k) implies (decode_block_spec(
            post_rows[k],
        ) matches Some(b) ==> b.number == k) by {
            if k == raw.number {
                assert(decode_block_spec(post_rows[k]) == Some(rec));
            } else {
                assert(pre_rows.dom().contains(k));
                assert(post_rows[k] == pre_rows[k]);
            }
        }
    }
}

/// Idempotent upsert: writing the same record twice leaves the store — every
/// row, and so also the greatest key — exactly as one write does.
pub proof fn lemma_upsert_idempotent(rows: Map<u32, Seq<char>>, b: StoredBlockV)
    ensures
        rows.insert(b.number, enc_block(b)).insert(b.number, enc_block(b)) == rows.insert(
            b.number,
            enc_block(b),
        ),
        rows.insert(b.number, enc_block(b)).insert(b.number, enc_block(b)).dom() == rows.insert(
            b.number,
            enc_block(b),
        ).dom(),
{
    assert(rows.insert(b.number, enc_block(b)).insert(b.number, enc_block(b)) =~= rows.insert(
        b.number,
        enc_block(b),
    ));
}

} // verus!
