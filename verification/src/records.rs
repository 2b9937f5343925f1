use vstd::prelude::*;

verus! {

/// A rule that excludes events: every event of `pallet` when `method` is
/// `None`, or only the events of `pallet` whose variant name equals the
/// given method name.
pub struct EventFilter {
    pub pallet: String,
    pub method: Option<String>,
}

/// Mathematical image of an `EventFilter`.
#[verifier::ext_equal]
pub struct EventFilterV {
    pub pallet: Seq<char>,
    pub method: Option<Seq<char>>,
}

impl View for EventFilter {
    type V = EventFilterV;

    open spec fn view(&self) -> EventFilterV {
        EventFilterV {
            pallet: self.pallet@,
            method: match self.method {
                Some(m) => Some(m@),
                None => None,
            },
        }
    }
}

/// One event retained from a block: the pallet that emitted it, its variant
/// name, and an opaque textual rendering of its field values.
pub struct EventInfo {
    pub pallet: String,
    pub variant: String,
    pub data: String,
}

/// Mathematical image of an `EventInfo`.
#[verifier::ext_equal]
pub struct EventInfoV {
    pub pallet: Seq<char>,
    pub variant: Seq<char>,
    pub data: Seq<char>,
}

impl View for EventInfo {
    type V = EventInfoV;

    open spec fn view(&self) -> EventInfoV {
        EventInfoV { pallet: self.pallet@, variant: self.variant@, data: self.data@ }
    }
}

/// One extrinsic retained from a block, with the events it emitted that
/// passed the event filter.
pub struct ExtrinsicInfo {
    pub index: u32,
    pub hash: String,
    pub action: String,
    pub params: String,
    pub events: Vec<EventInfo>,
}

/// Mathematical image of an `ExtrinsicInfo`.
#[verifier::ext_equal]
pub struct ExtrinsicInfoV {
    pub index: u32,
    pub hash: Seq<char>,
    pub action: Seq<char>,
    pub params: Seq<char>,
    pub events: Seq<EventInfoV>,
}

/// The views of a sequence of event records, elementwise.
pub open spec fn events_v(s: Seq<EventInfo>) -> Seq<EventInfoV> {
    s.map_values(|e: EventInfo| e@)
}

impl View for ExtrinsicInfo {
    type V = ExtrinsicInfoV;

    open spec fn view(&self) -> ExtrinsicInfoV {
        ExtrinsicInfoV {
            index: self.index,
            hash: self.hash@,
            action: self.action@,
            params: self.params@,
            events: events_v(self.events@),
        }
    }
}

/// The views of a sequence of extrinsic records, elementwise.
pub open spec fn extrinsics_v(s: Seq<ExtrinsicInfo>) -> Seq<ExtrinsicInfoV> {
    s.map_values(|x: ExtrinsicInfo| x@)
}

/// The views of the event rules, elementwise.
pub open spec fn filters_v(s: Seq<EventFilter>) -> Seq<EventFilterV> {
    s.map_values(|f: EventFilter| f@)
}

/// The views of a sequence of strings, elementwise.
pub open spec fn strings_v(s: Seq<String>) -> Seq<Seq<char>> {
    s.map_values(|x: String| x@)
}

pub proof fn lemma_events_v_push(s: Seq<EventInfo>, e: EventInfo)
    ensures
        events_v(s.push(e)) == events_v(s).push(e@),
{
    assert(events_v(s.push(e)) =~= events_v(s).push(e@));
}

pub proof fn lemma_extrinsics_v_push(s: Seq<ExtrinsicInfo>, x: ExtrinsicInfo)
    ensures
        extrinsics_v(s.push(x)) == extrinsics_v(s).push(x@),
{
    assert(extrinsics_v(s.push(x)) =~= extrinsics_v(s).push(x@));
}

/// A block as it is persisted: its number (the store key), its hash, the
/// extrinsics that survived filtering, and the ingestion time in unix
/// seconds.
pub struct StoredBlock {
    pub number: u32,
    pub hash: String,
    pub extrinsics: Vec<ExtrinsicInfo>,
    pub timestamp: i64,
}

/// Mathematical image of a `StoredBlock`.
#[verifier::ext_equal]
pub struct StoredBlockV {
    pub number: u32,
    pub hash: Seq<char>,
    pub extrinsics: Seq<ExtrinsicInfoV>,
    pub timestamp: i64,
}

impl View for StoredBlock {
    type V = StoredBlockV;

    open spec fn view(&self) -> StoredBlockV {
        StoredBlockV {
            number: self.number,
            hash: self.hash@,
            extrinsics: extrinsics_v(self.extrinsics@),
            timestamp: self.timestamp,
        }
    }
}

/// The live snapshot of the most recently ingested block, replaced
/// wholesale on every successful ingestion.
pub struct BlockInfo {
    pub number: u32,
    pub hash: String,
    pub extrinsics_count: usize,
    pub events_count: usize,
    pub extrinsics: Vec<ExtrinsicInfo>,
}

/// Mathematical image of a `BlockInfo`.
#[verifier::ext_equal]
pub struct BlockInfoV {
    pub number: u32,
    pub hash: Seq<char>,
    pub extrinsics_count: usize,
    pub events_count: usize,
    pub extrinsics: Seq<ExtrinsicInfoV>,
}

impl View for BlockInfo {
    type V = BlockInfoV;

    open spec fn view(&self) -> BlockInfoV {
        BlockInfoV {
            number: self.number,
            hash: self.hash@,
            extrinsics_count: self.extrinsics_count,
            events_count: self.events_count,
            extrinsics: extrinsics_v(self.extrinsics@),
        }
    }
}

impl BlockInfo {
    /// The placeholder view a process starts with, before any block has
    /// been ingested.
    pub fn initial() -> (r: BlockInfo)
        ensures
            r.number == 0,
            r@.hash == "0x0"@,
            r.extrinsics_count == 0,
            r.events_count == 0,
            r@.extrinsics == Seq::<ExtrinsicInfoV>::empty(),
    {
        proof {
            assert(extrinsics_v(Seq::<ExtrinsicInfo>::empty()) =~= Seq::<ExtrinsicInfoV>::empty());
        }
        BlockInfo {
            number: 0,
            hash: String::from_str("0x0"),
            extrinsics_count: 0,
            events_count: 0,
            extrinsics: Vec::new(),
        }
    }
}

} // verus!
