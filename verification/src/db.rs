use vstd::prelude::*;
use crate::codec::{decode_block, decode_block_spec, enc_block, encode_block};
use crate::records::{filters_v, strings_v, EventFilter, EventFilterV, StoredBlock, StoredBlockV};
use crate::store::{
    conn_get, conn_latest, conn_open, conn_range, conn_upsert, store_rows, Conn, StoreError,
};

verus! {

/// Whether an event of `pallet` with variant `variant` survives the rules:
/// the rules are scanned in order, and the first rule for the pallet that
/// names no method, or names this variant, excludes the event.
pub open spec fn event_included(
    filters: Seq<EventFilterV>,
    pallet: Seq<char>,
    variant: Seq<char>,
) -> bool
    decreases filters.len(),
{
    if filters.len() == 0 {
        true
    } else {
        let f = filters[0];
        if f.pallet == pallet && (f.method is None || f.method == Some(variant)) {
            false
        } else {
            event_included(filters.skip(1), pallet, variant)
        }
    }
}

/// Whether an extrinsic whose qualified action name is `action` survives:
/// it does unless the name is a member of the exclusion set.
pub open spec fn extrinsic_included(filters: Seq<Seq<char>>, action: Seq<char>) -> bool {
    !filters.contains(action)
}

/// Whether every decodable row is filed under its own number — true of every
/// row this library writes.
pub open spec fn rows_wf(rows: Map<u32, Seq<char>>) -> bool {
    forall|k: u32|
        #[trigger] rows.dom().contains(k) ==> (decode_block_spec(rows[k]) matches Some(b) ==>
            b.number == k)
}

/// Whether `b` is the decoding of some stored row whose key lies in
/// `[low, high]`.
pub open spec fn from_stored_row(
    rows: Map<u32, Seq<char>>,
    low: u32,
    high: u32,
    b: StoredBlockV,
) -> bool {
    exists|k: u32|
        low <= k <= high && #[trigger] rows.dom().contains(k) && decode_block_spec(rows[k])
            == Some(b)
}

/// Filter precedence: a single rule for a pallet that names no method
/// excludes every event of that pallet, whatever its variant; a single rule
/// that names a method excludes exactly that variant and no other.
pub proof fn lemma_filter_precedence(p: Seq<char>, x: Seq<char>, v: Seq<char>)
    ensures
        !event_included(seq![(EventFilterV { pallet: p, method: None })], p, v),
        event_included(seq![(EventFilterV { pallet: p, method: Some(x) })], p, v) <==> v != x,
{
    let fs = seq![(EventFilterV { pallet: p, method: Some(x) })];
    assert(fs.skip(1) =~= Seq::<EventFilterV>::empty());
    assert(event_included(Seq::<EventFilterV>::empty(), p, v));
    if v != x {
        assert(fs[0].method != Some(v));
        assert(event_included(fs, p, v));
    }
}

/// Whether some element of `v` is the record `b`.
pub open spec fn lists_record(v: Seq<StoredBlock>, b: StoredBlockV) -> bool {
    exists|i: int| 0 <= i < v.len() && v[i]@ == b
}

/// Whether every stored row with key in `[low, high]` decodes.
pub open spec fn range_decodes(rows: Map<u32, Seq<char>>, low: u32, high: u32) -> bool {
    forall|k: u32|
        low <= k <= high && #[trigger] rows.dom().contains(k) ==> decode_block_spec(rows[k])
            is Some
}

/// The durable block store together with the fixed filter configuration.
pub struct Database {
    conn: Conn,
    event_filters: Vec<EventFilter>,
    extrinsic_filters: Vec<String>,
}

impl Database {
    /// The rows of the durable table, block number to stored text.
    pub closed spec fn rows(&self) -> Map<u32, Seq<char>> {
        store_rows(self.conn)
    }

    /// The configured event exclusion rules, in order.
    pub closed spec fn event_filters_v(&self) -> Seq<EventFilterV> {
        filters_v(self.event_filters@)
    }

    /// The configured extrinsic exclusion set.
    pub closed spec fn extrinsic_filters_v(&self) -> Seq<Seq<char>> {
        strings_v(self.extrinsic_filters@)
    }

    /// Open (or create) the store at `path` and fix the filter rules for the
    /// life of the value.  Opening an existing store keeps its rows.
    pub fn new(
        path: &str,
        event_filters: Vec<EventFilter>,
        extrinsic_filters: Vec<String>,
    ) -> (r: Result<Database, StoreError>)
        ensures
            r matches Ok(d) ==> d.event_filters_v() == filters_v(event_filters@)
                && d.extrinsic_filters_v() == strings_v(extrinsic_filters@),
            r matches Err(e) ==> e is Backend,
    {
        match conn_open(path) {
            Ok(conn) => Ok(Database { conn, event_filters, extrinsic_filters }),
            Err(e) => Err(e),
        }
    }

    /// Scan the event rules in declaration order; the first rule for this
    /// pallet that names no method or names this variant excludes the event.
    pub fn should_include_event(&self, pallet: &str, method: &str) -> (r: bool)
        ensures
            r == event_included(self.event_filters_v(), pallet@, method@),
    {
        let p = pallet.to_owned();
        let m = method.to_owned();
        let n = self.event_filters.len();
        let mut i: usize = 0;
        proof {
            assert(self.event_filters_v().skip(0) =~= self.event_filters_v());
        }
        while i < n
            invariant
                n == self.event_filters.len(),
                0 <= i <= n,
                event_included(self.event_filters_v(), pallet@, method@) == event_included(
                    self.event_filters_v().skip(i as int),
                    pallet@,
                    method@,
                ),
                p@ == pallet@,
                m@ == method@,
            decreases n - i,
        {
            let f = &self.event_filters[i];
            proof {
                assert(self.event_filters_v().skip(i as int)[0] == self.event_filters@[i as int]@);
                assert(self.event_filters_v().skip(i as int).skip(1) =~= self.event_filters_v().skip(
                    i + 1,
                ));
            }
            if f.pallet == p {
                match &f.method {
                    None => {
                        return false;
                    },
                    Some(fm) => {
                        if *fm == m {
                            return false;
                        }
                    },
                }
            }
            i = i + 1;
        }
        proof {
            assert(self.event_filters_v().skip(n as int) =~= Seq::<EventFilterV>::empty());
        }
        true
    }

    /// An extrinsic is included exactly when its qualified action name is
    /// not in the exclusion set.
    pub fn should_include_extrinsic(&self, action: &str) -> (r: bool)
        ensures
            r == extrinsic_included(self.extrinsic_filters_v(), action@),
    {
        let a = action.to_owned();
        let n = self.extrinsic_filters.len();
        let mut i: usize = 0;
        while i < n
            invariant
                n == self.extrinsic_filters.len(),
                0 <= i <= n,
                forall|j: int| 0 <= j < i ==> self.extrinsic_filters_v()[j] != action@,
                a@ == action@,
            decreases n - i,
        {
            if self.extrinsic_filters[i] == a {
                proof {
                    assert(self.extrinsic_filters_v()[i as int] == action@);
                    assert(self.extrinsic_filters_v().contains(action@));
                }
                return false;
            }
            i = i + 1;
        }
        proof {
            assert(forall|j: int|
                0 <= j < self.extrinsic_filters_v().len() ==> self.extrinsic_filters_v()[j]
                    != action@);
            assert(!self.extrinsic_filters_v().contains(action@));
        }
        true
    }

    /// Serialize `block` and write it under its number, replacing any prior
    /// row for that key and touching no other row.
    pub fn store_block(&mut self, block: &StoredBlock) -> (r: Result<(), StoreError>)
        ensures
            final(self).event_filters_v() == old(self).event_filters_v(),
            final(self).extrinsic_filters_v() == old(self).extrinsic_filters_v(),
            r is Ok ==> final(self).rows() == old(self).rows().insert(
                block.number,
                enc_block(block@),
            ) && decode_block_spec(final(self).rows()[block.number]) == Some(block@),
            r matches Err(e) ==> final(self).rows() == old(self).rows() && e is Backend,
    {
        let data = encode_block(block);
        conn_upsert(&mut self.conn, block.number, block.hash.as_str(), data.as_str(), block.timestamp)
    }

    /// Point lookup: the record stored under `block_number`, `None` when the
    /// key is absent, and `Corrupt` — never a default value — when the row is
    /// present but does not decode.
    pub fn get_block(&self, block_number: u32) -> (r: Result<Option<StoredBlock>, StoreError>)
        ensures
            r matches Ok(Some(b)) ==> self.rows().dom().contains(block_number)
                && decode_block_spec(self.rows()[block_number]) == Some(b@),
            r matches Ok(None) ==> !self.rows().dom().contains(block_number),
            r == Err::<Option<StoredBlock>, StoreError>(StoreError::Corrupt) ==> self.rows().dom().contains(
                block_number,
            ) && decode_block_spec(self.rows()[block_number]) is None,
            r matches Err(e) ==> (e is Backend || e is Corrupt),
    {
        match conn_get(&self.conn, block_number) {
            Err(e) => Err(e),
            Ok(None) => Ok(None),
            Ok(Some(s)) => match decode_block(s.as_str()) {
                Some(b) => Ok(Some(b)),
                None => Err(StoreError::Corrupt),
            },
        }
    }

    /// The greatest block number present, or `None` on an empty store.
    pub fn get_latest_block_number(&self) -> (r: Result<Option<u32>, StoreError>)
        ensures
            r matches Ok(Some(n)) ==> self.rows().dom().contains(n) && (forall|m: u32|
                #[trigger] self.rows().dom().contains(m) ==> m <= n),
            r matches Ok(None) ==> self.rows().dom() =~= Set::<u32>::empty(),
            r matches Err(e) ==> e is Backend,
    {
        conn_latest(&self.conn)
    }

    /// The stored records with number in `[start, end]`, greatest number
    /// first, at most `limit` of them; a row that does not decode is skipped
    /// rather than failing the whole scan.
    /// Decode a scanned window of rows, skipping rows that do not decode:
    /// the scan's leniency, separated from the scan itself.  `raw` is the
    /// engine's answer: strictly descending keys of `[start, end]`, each with
    /// its stored text.
    #[verifier::rlimit(100)]
    fn decode_rows(&self, raw: &Vec<(u32, String)>, start: u32, end: u32) -> (out: Vec<
        StoredBlock,
    >)
        requires
            forall|i2: int, j2: int|
                0 <= i2 < j2 < raw@.len() ==> (#[trigger] raw@[i2]).0 > (#[trigger] raw@[j2]).0,
            forall|j: int|
                0 <= j < raw@.len() ==> start <= (#[trigger] raw@[j]).0 <= end
                    && self.rows().dom().contains(raw@[j].0) && raw@[j].1@ == self.rows()[raw@[j].0],
        ensures
            out@.len() <= raw@.len(),
            forall|a: int|
                0 <= a < out@.len() ==> from_stored_row(self.rows(), start, end, (#[trigger] out@[a])@),
            rows_wf(self.rows()) ==> forall|a: int, b: int|
                0 <= a < b < out@.len() ==> (#[trigger] out@[a]).number > (#[trigger] out@[b]).number,
            range_decodes(self.rows(), start, end) ==> out@.len() == raw@.len(),
            forall|j: int|
                0 <= j < raw@.len() ==> (decode_block_spec(
                    self.rows()[(#[trigger] raw@[j]).0],
                ) matches Some(b) ==> lists_record(out@, b)),
            rows_wf(self.rows()) && out@.len() > 0 && raw@.len() > 0 ==> out@[out@.len()
                - 1].number >= raw@[raw@.len() - 1].0,
    {
        let mut out: Vec<StoredBlock> = Vec::new();
        let ghost mut keys: Seq<u32> = Seq::empty();
        let n = raw.len();
        let mut i: usize = 0;
        while i < n
            invariant
                n == raw@.len(),
                0 <= i <= n,
                out@.len() == keys.len(),
                out@.len() <= i,
                range_decodes(self.rows(), start, end) ==> out@.len() == i,
                forall|j: int|
                    0 <= j < i && decode_block_spec(self.rows()[(#[trigger] raw@[j]).0]) is Some
                        ==> exists|a: int| 0 <= a < keys.len() && keys[a] == raw@[j].0,
                forall|a: int|
                    0 <= a < keys.len() ==> start <= #[trigger] keys[a] <= end
                        && self.rows().dom().contains(keys[a]) && decode_block_spec(
                        self.rows()[keys[a]],
                    ) == Some(out@[a]@),
                forall|a: int, b: int| 0 <= a < b < keys.len() ==> keys[a] > keys[b],
                forall|a: int|
                    0 <= a < keys.len() ==> exists|j: int|
                        0 <= j < i && #[trigger] keys[a] == raw@[j].0,
                forall|i2: int, j2: int|
                    0 <= i2 < j2 < raw@.len() ==> (#[trigger] raw@[i2]).0 > (#[trigger] raw@[j2]).0,
                forall|j: int|
                    0 <= j < raw@.len() ==> start <= (#[trigger] raw@[j]).0 <= end
                        && self.rows().dom().contains(raw@[j].0) && raw@[j].1@ == self.rows()[raw@[j].0],
            decreases n - i,
        {
            let (num, text) = &raw[i];
            proof {
                if range_decodes(self.rows(), start, end) {
                    assert(decode_block_spec(text@) is Some);
                }
            }
            match decode_block(text.as_str()) {
                Some(b) => {
                    proof {
                        assert(decode_block_spec(self.rows()[raw@[i as int].0]) == Some(b@));
                        assert forall|a: int| 0 <= a < keys.len() implies #[trigger] keys[a]
                            > raw@[i as int].0 by {
                            let j = choose|j: int| 0 <= j < i && keys[a] == raw@[j].0;
                            assert(raw@[j].0 > raw@[i as int].0);
                        }
                    }
                    out.push(b);
                    proof {
                        let prev_keys = keys;
                        keys = keys.push(raw@[i as int].0);
                        assert forall|j: int|
                            0 <= j < i + 1 && decode_block_spec(
                                self.rows()[(#[trigger] raw@[j]).0],
                            ) is Some implies exists|a: int|
                            0 <= a < keys.len() && keys[a] == raw@[j].0 by {
                            if j == i {
                                assert(keys[keys.len() - 1] == raw@[j].0);
                            } else {
                                let a0 = choose|a0: int|
                                    0 <= a0 < prev_keys.len() && prev_keys[a0] == raw@[j].0;
                                assert(keys[a0] == raw@[j].0);
                            }
                        }
                    }
                },
                None => {
                    proof {
                        assert(decode_block_spec(self.rows()[raw@[i as int].0]) is None);
                    }
                },
            }
            i = i + 1;
        }
        proof {
            assert forall|a: int| 0 <= a < out@.len() implies from_stored_row(
                self.rows(),
                start,
                end,
                (#[trigger] out@[a])@,
            ) by {
                let k0 = keys[a];
                assert(start <= k0 <= end && self.rows().dom().contains(k0)
                    && decode_block_spec(self.rows()[k0]) == Some(out@[a]@));
            }
            assert forall|j: int| 0 <= j < raw@.len() implies (decode_block_spec(
                self.rows()[(#[trigger] raw@[j]).0],
            ) matches Some(b) ==> lists_record(out@, b)) by {
                if decode_block_spec(self.rows()[raw@[j].0]) is Some {
                    let a = choose|a: int| 0 <= a < keys.len() && keys[a] == raw@[j].0;
                    assert(decode_block_spec(self.rows()[keys[a]]) == Some(out@[a]@));
                    assert(lists_record(out@, out@[a]@));
                }
            }
            if rows_wf(self.rows()) {
                assert forall|a: int| 0 <= a < out@.len() implies (#[trigger] out@[a]).number
                    == keys[a] by {
                    assert(self.rows().dom().contains(keys[a]));
                    assert(out@[a]@.number == keys[a]);
                }
                if out@.len() > 0 {
                    let last = out@.len() - 1;
                    assert(out@[last].number == keys[last]);
                    let jstar = choose|j: int| 0 <= j < raw@.len() && #[trigger] keys[last] == raw@[j].0;
                    assert(raw@[jstar].0 >= raw@[raw@.len() - 1].0);
                }
            }
        }
        out
    }

    /// The stored records with number in `[start, end]`, greatest number
    /// first, at most `limit` of them; a row that does not decode is skipped
    /// rather than failing the whole scan (the engine's `limit` applies to
    /// scanned rows, so a skipped row still uses up one of the `limit`
    /// slots).
    #[verifier::rlimit(50)]
    pub fn get_blocks_range(&self, start: u32, end: u32, limit: u32) -> (r: Result<
        Vec<StoredBlock>,
        StoreError,
    >)
        ensures
            r matches Ok(v) ==> {
                &&& v@.len() <= limit
                &&& forall|i: int|
                    0 <= i < v@.len() ==> from_stored_row(
                        self.rows(),
                        start,
                        end,
                        (#[trigger] v@[i])@,
                    )
                &&& (rows_wf(self.rows()) ==> forall|i: int, j: int|
                    0 <= i < j < v@.len() ==> (#[trigger] v@[i]).number > (#[trigger] v@[j]).number)
                &&& (v@.len() < limit && range_decodes(self.rows(), start, end) ==> forall|k: u32|
                    start <= k <= end && #[trigger] self.rows().dom().contains(k)
                        ==> (decode_block_spec(self.rows()[k]) matches Some(b) && lists_record(
                        v@,
                        b,
                    )))
                &&& (rows_wf(self.rows()) && v@.len() > 0 ==> forall|k: u32|
                    start <= k <= end && #[trigger] self.rows().dom().contains(k) && k > v@[v@.len()
                        - 1].number ==> (decode_block_spec(self.rows()[k]) matches Some(b)
                        ==> lists_record(v@, b)))
            },
            r matches Err(e) ==> e is Backend,
    {
        let raw = match conn_range(&self.conn, start, end, limit) {
            Ok(raw) => raw,
            Err(e) => {
                return Err(e);
            },
        };
        let out = self.decode_rows(&raw, start, end);
        proof {
            if out@.len() < limit && range_decodes(self.rows(), start, end) {
                assert(out@.len() == raw@.len());
                assert forall|k: u32|
                    start <= k <= end && #[trigger] self.rows().dom().contains(k) implies (
                decode_block_spec(self.rows()[k]) matches Some(b) && lists_record(out@, b)) by {
                    assert(decode_block_spec(self.rows()[k]) is Some);
                    let j = choose|j: int| 0 <= j < raw@.len() && (#[trigger] raw@[j]).0 == k;
                    assert(decode_block_spec(self.rows()[raw@[j].0]) matches Some(b2)
                        ==> lists_record(out@, b2));
                }
            }
            if rows_wf(self.rows()) && out@.len() > 0 {
                let last = out@.len() - 1;
                assert forall|k: u32|
                    start <= k <= end && #[trigger] self.rows().dom().contains(k) && k > out@[
                last].number implies (decode_block_spec(self.rows()[k]) matches Some(b)
                    ==> lists_record(out@, b)) by {
                    assert(raw@.len() > 0);
                    assert(k > raw@[raw@.len() - 1].0);
                    let j = choose|j: int| 0 <= j < raw@.len() && (#[trigger] raw@[j]).0 == k;
                    assert(decode_block_spec(self.rows()[raw@[j].0]) matches Some(b2)
                        ==> lists_record(out@, b2));
                }
            }
        }
        Ok(out)
    }
}

} // verus!
