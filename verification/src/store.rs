//! The resume store: a durable mapping from media path to playback position.
//!
//! On disk the store is a text file with one record per line, the path and
//! the position separated by a single tab, the position written with three
//! fraction digits.  Malformed lines are skipped on load.  The same record
//! shape is used for the single-line "last played" file.
//!
//! In memory the store is an association vector with unique keys; its
//! mathematical view is a `Map` from the key bytes to milliseconds.

use vstd::prelude::*;

use crate::posfmt::{
    all_digits, copy_range, find_byte, fmt_position, lemma_find_byte, lemma_position_roundtrip,
    parse_pos, parse_position, pos_text, DOT, NL, TAB,
};

verus! {

/// One persisted record: key, tab, position text, newline.
pub open spec fn record_text(k: Seq<u8>, ms: u64) -> Seq<u8> {
    k + seq![TAB] + pos_text(ms) + seq![NL]
}

/// A key that the file format can carry: free of tab and newline bytes.
pub open spec fn clean_key(k: Seq<u8>) -> bool {
    forall|i: int| 0 <= i < k.len() ==> k[i] != TAB && k[i] != NL
}

/// The rendered file: the records in order.
pub open spec fn render(s: Seq<(Seq<u8>, u64)>) -> Seq<u8>
    decreases s.len(),
{
    if s.len() == 0 {
        Seq::empty()
    } else {
        record_text(s[0].0, s[0].1) + render(s.drop_first())
    }
}

/// What one line denotes: the bytes before the first tab are the key, the
/// rest must read as a position.
pub open spec fn parse_record_spec(line: Seq<u8>) -> Option<(Seq<u8>, u64)> {
    match find_byte(line, TAB) {
        None => None,
        Some(t) => match parse_pos(line.subrange(t + 1, line.len() as int)) {
            None => None,
            Some(ms) => Some((line.subrange(0, t), ms)),
        },
    }
}

/// All records of a file, line by line; a final line without a newline
/// terminator still counts, malformed lines are dropped.
pub open spec fn parse_lines(s: Seq<u8>) -> Seq<(Seq<u8>, u64)>
    decreases s.len(),
    via parse_lines_decreases
{
    if s.len() == 0 {
        Seq::empty()
    } else {
        let (line, rest) = match find_byte(s, NL) {
            Some(i) => (s.subrange(0, i), s.subrange(i + 1, s.len() as int)),
            None => (s, Seq::<u8>::empty()),
        };
        let tail = parse_lines(rest);
        match parse_record_spec(line) {
            Some(e) => seq![e] + tail,
            None => tail,
        }
    }
}

#[via_fn]
proof fn parse_lines_decreases(s: Seq<u8>) {
    lemma_find_byte(s, NL);
}

/// The mapping that a record sequence denotes; a later record for the same
/// key overrides an earlier one.
pub open spec fn assoc_map(s: Seq<(Seq<u8>, u64)>) -> Map<Seq<u8>, u64>
    decreases s.len(),
{
    if s.len() == 0 {
        Map::empty()
    } else {
        assoc_map(s.drop_last()).insert(s.last().0, s.last().1)
    }
}

pub open spec fn unique_keys(s: Seq<(Seq<u8>, u64)>) -> bool {
    forall|i: int, j: int| 0 <= i < j < s.len() ==> s[i].0 != s[j].0
}

/// View of the concrete entries as mathematical pairs.
pub open spec fn entry_views(s: Seq<(Vec<u8>, u64)>) -> Seq<(Seq<u8>, u64)> {
    s.map_values(|e: (Vec<u8>, u64)| (e.0@, e.1))
}

/// Under unique keys, the association map holds exactly the listed pairs.
pub proof fn lemma_assoc_map_char(s: Seq<(Seq<u8>, u64)>)
    requires
        unique_keys(s),
    ensures
        forall|k: Seq<u8>|
            #[trigger] assoc_map(s).dom().contains(k) ==> exists|i: int|
                0 <= i < s.len() && s[i].0 == k,
        forall|i: int|
            0 <= i < s.len() ==> assoc_map(s).dom().contains(#[trigger] s[i].0)
                && assoc_map(s)[s[i].0] == s[i].1,
    decreases s.len(),
{
    if s.len() > 0 {
        let dl = s.drop_last();
        assert(unique_keys(dl)) by {
            assert(forall|i: int, j: int| 0 <= i < j < dl.len() ==> dl[i] == s[i] && dl[j] == s[j]);
        }
        lemma_assoc_map_char(dl);
        let m = assoc_map(s);
        assert(m == assoc_map(dl).insert(s.last().0, s.last().1));
        assert forall|k: Seq<u8>| #[trigger] m.dom().contains(k) implies exists|i: int|
            0 <= i < s.len() && s[i].0 == k by {
            if k == s.last().0 {
                assert(s[s.len() - 1].0 == k);
            } else {
                assert(assoc_map(dl).dom().contains(k));
                let i = choose|i: int| 0 <= i < dl.len() && dl[i].0 == k;
                assert(s[i].0 == k);
            }
        }
        assert forall|i: int|
            0 <= i < s.len() implies m.dom().contains(#[trigger] s[i].0)
                && m[s[i].0] == s[i].1 by {
            if i == s.len() - 1 {
            } else {
                assert(dl[i] == s[i]);
                assert(s[i].0 != s.last().0);
            }
        }
    }
}

/// The durable key-to-position mapping.
pub struct ResumeDb {
    entries: Vec<(Vec<u8>, u64)>,
}

impl View for ResumeDb {
    type V = Map<Seq<u8>, u64>;

    closed spec fn view(&self) -> Map<Seq<u8>, u64> {
        assoc_map(entry_views(self.entries@))
    }
}

impl ResumeDb {
    /// Pairs as stored, in file order.
    pub closed spec fn records(&self) -> Seq<(Seq<u8>, u64)> {
        entry_views(self.entries@)
    }

    /// Well-formed: no key occurs twice.
    pub open spec fn wf(&self) -> bool {
        unique_keys(self.records())
    }

    pub fn new() -> (db: ResumeDb)
        ensures
            db.wf(),
            db@ == Map::<Seq<u8>, u64>::empty(),
            db.records() == Seq::<(Seq<u8>, u64)>::empty(),
    {
        let db = ResumeDb { entries: Vec::new() };
        proof {
            assert(db.records() =~= Seq::<(Seq<u8>, u64)>::empty());
        }
        db
    }

    pub fn len(&self) -> (n: usize)
        ensures
            n == self.records().len(),
    {
        self.entries.len()
    }

    fn find_key(&self, key: &Vec<u8>) -> (r: Option<usize>)
        ensures
            match r {
                Some(i) => 0 <= i < self.records().len() && self.records()[i as int].0 == key@,
                None => forall|i: int|
                    0 <= i < self.records().len() ==> self.records()[i].0 != key@,
            },
    {
        let mut i: usize = 0;
        while i < self.entries.len()
            invariant
                0 <= i <= self.records().len(),
                self.records().len() == self.entries@.len(),
                forall|j: int| 0 <= j < i ==> self.records()[j].0 != key@,
            decreases self.entries@.len() - i,
        {
            if bytes_eq(&self.entries[i].0, key) {
                return Some(i);
            }
            i += 1;
        }
        None
    }

    /// Looks a key up; `Some` exactly when the key is present.
    pub fn get(&self, key: &Vec<u8>) -> (r: Option<u64>)
        requires
            self.wf(),
        ensures
            r == if self@.dom().contains(key@) {
                Some(self@[key@])
            } else {
                None::<u64>
            },
    {
        proof {
            lemma_assoc_map_char(self.records());
        }
        match self.find_key(key) {
            Some(i) => Some(self.entries[i].1),
            None => {
                assert(!self@.dom().contains(key@));
                None
            },
        }
    }

    /// Sets the position stored for a key, replacing any previous record.
    pub fn insert(&mut self, key: Vec<u8>, ms: u64)
        requires
            old(self).wf(),
        ensures
            final(self).wf(),
            final(self)@ == old(self)@.insert(key@, ms),
    {
        proof {
            lemma_assoc_map_char(old(self).records());
        }
        let ghost ev_old = old(self).records();
        match self.find_key(&key) {
            Some(i) => {
                let ghost kv = key@;
                self.entries.set(i, (key, ms));
                proof {
                    let ev_new = self.records();
                    assert(ev_new =~= ev_old.update(i as int, (kv, ms)));
                    assert(unique_keys(ev_new)) by {
                        assert(forall|j: int|
                            0 <= j < ev_new.len() ==> (#[trigger] ev_new[j]).0 == ev_old[j].0);
                    }
                    lemma_assoc_map_char(ev_new);
                    assert(self@ =~= old(self)@.insert(kv, ms)) by {
                        lemma_two_char_maps_equal(ev_old, ev_new, i as int, kv, ms);
                    }
                }
            },
            None => {
                let ghost kv = key@;
                self.entries.push((key, ms));
                proof {
                    let ev_new = self.records();
                    assert(ev_new =~= ev_old.push((kv, ms)));
                    assert(ev_new.drop_last() =~= ev_old);
                    assert(unique_keys(ev_new)) by {
                        assert(forall|j: int| 0 <= j < ev_old.len() ==> ev_new[j] == ev_old[j]);
                        assert(ev_new[ev_new.len() - 1].0 == kv);
                    }
                    assert(assoc_map(ev_new) == assoc_map(ev_old).insert(kv, ms));
                }
            },
        }
    }

    /// Drops the record for a key, if any.
    pub fn remove(&mut self, key: &Vec<u8>)
        requires
            old(self).wf(),
        ensures
            final(self).wf(),
            final(self)@ == old(self)@.remove(key@),
    {
        proof {
            lemma_assoc_map_char(old(self).records());
        }
        let ghost ev_old = old(self).records();
        match self.find_key(key) {
            Some(i) => {
                self.entries.remove(i);
                proof {
                    let ev_new = self.records();
                    assert(ev_new =~= ev_old.remove(i as int));
                    assert(unique_keys(ev_new)) by {
                        assert(forall|j: int|
                            0 <= j < ev_new.len() ==> #[trigger] ev_new[j] == if j < i {
                                ev_old[j]
                            } else {
                                ev_old[j + 1]
                            });
                    }
                    lemma_assoc_map_char(ev_new);
                    assert(self@ =~= old(self)@.remove(key@)) by {
                        lemma_removed_char_maps(ev_old, ev_new, i as int, key@);
                    }
                }
            },
            None => {
                proof {
                    assert(!old(self)@.dom().contains(key@));
                    assert(self@ =~= old(self)@.remove(key@));
                }
            },
        }
    }
}

/// One record as persisted: `key<TAB>position<NL>`.  Also the exact shape of
/// the single-record last-played file.
pub fn format_record(key: &Vec<u8>, ms: u64) -> (r: Vec<u8>)
    ensures
        r@ == record_text(key@, ms),
{
    let mut v = copy_range(key, 0, key.len());
    v.push(TAB);
    let mut p = fmt_position(ms);
    v.append(&mut p);
    v.push(NL);
    assert(v@ =~= record_text(key@, ms));
    v
}

/// Appending one record to a rendered file renders the extended sequence.
pub proof fn lemma_render_push(s: Seq<(Seq<u8>, u64)>, e: (Seq<u8>, u64))
    ensures
        render(s.push(e)) == render(s) + record_text(e.0, e.1),
    decreases s.len(),
{
    if s.len() == 0 {
        let p = s.push(e);
        assert(p.len() == 1);
        assert(p[0] == e);
        assert(p.drop_first() =~= Seq::<(Seq<u8>, u64)>::empty());
        assert(render(p.drop_first()) =~= Seq::<u8>::empty());
        assert(render(p) == record_text(p[0].0, p[0].1) + render(p.drop_first()));
        assert(render(s) =~= Seq::<u8>::empty());
        assert(render(p) =~= render(s) + record_text(e.0, e.1));
    } else {
        assert(s.push(e).drop_first() =~= s.drop_first().push(e));
        lemma_render_push(s.drop_first(), e);
        assert(s.push(e)[0] == s[0]);
        assert(render(s.push(e)) =~= render(s) + record_text(e.0, e.1));
    }
}

/// Reads one line into a record, if it is well formed.
pub fn parse_record(line: &Vec<u8>) -> (r: Option<(Vec<u8>, u64)>)
    ensures
        match r {
            Some(e) => parse_record_spec(line@) == Some((e.0@, e.1)),
            None => parse_record_spec(line@) is None,
        },
{
    proof {
        lemma_find_byte(line@, TAB);
    }
    let n = line.len();
    let mut t: usize = 0;
    while t < n && line[t] != TAB
        invariant
            0 <= t <= n,
            n == line@.len(),
            forall|k: int| 0 <= k < t ==> line@[k] != TAB,
        decreases n - t,
    {
        t += 1;
    }
    if t == n {
        assert(find_byte(line@, TAB) is None);
        return None;
    }
    assert(line@[t as int] == TAB);
    assert(find_byte(line@, TAB) == Some(t as int));
    let text = copy_range(line, t + 1, n);
    match parse_position(&text) {
        None => None,
        Some(ms) => {
            let key = copy_range(line, 0, t);
            Some((key, ms))
        },
    }
}

impl ResumeDb {
    /// The whole store as file bytes, one record per line.
    pub fn serialize(&self) -> (r: Vec<u8>)
        ensures
            r@ == render(self.records()),
    {
        let mut out: Vec<u8> = Vec::new();
        let mut i: usize = 0;
        assert(out@ =~= render(self.records().subrange(0, 0)));
        while i < self.entries.len()
            invariant
                0 <= i <= self.entries@.len(),
                self.records() == entry_views(self.entries@),
                self.records().len() == self.entries@.len(),
                out@ == render(self.records().subrange(0, i as int)),
            decreases self.entries@.len() - i,
        {
            let mut rec = format_record(&self.entries[i].0, self.entries[i].1);
            out.append(&mut rec);
            proof {
                let pre = self.records().subrange(0, i as int);
                let ext = self.records().subrange(0, i as int + 1);
                assert(ext =~= pre.push(self.records()[i as int]));
                lemma_render_push(pre, self.records()[i as int]);
                assert(self.records()[i as int].0 == self.entries@[i as int].0@);
            }
            i += 1;
        }
        proof {
            assert(self.records().subrange(0, self.records().len() as int) =~= self.records());
        }
        out
    }

    /// Reads file bytes back into a store: the mapping that the well-formed
    /// lines denote, later lines overriding earlier ones.
    pub fn parse(data: &Vec<u8>) -> (db: ResumeDb)
        ensures
            db.wf(),
            db@ == assoc_map(parse_lines(data@)),
    {
        let mut db = ResumeDb::new();
        let ghost mut done: Seq<(Seq<u8>, u64)> = Seq::empty();
        let n = data.len();
        let mut i: usize = 0;
        proof {
            assert(data@.subrange(0, n as int) =~= data@);
            assert(done + parse_lines(data@) =~= parse_lines(data@));
        }
        while i < n
            invariant
                0 <= i <= n,
                n == data@.len(),
                db.wf(),
                db@ == assoc_map(done),
                parse_lines(data@) == done + parse_lines(data@.subrange(i as int, n as int)),
            decreases n - i,
        {
            let mut j = i;
            while j < n && data[j] != NL
                invariant
                    i <= j <= n,
                    n == data@.len(),
                    forall|k: int| i <= k < j ==> data@[k] != NL,
                decreases n - j,
            {
                j += 1;
            }
            let ghost s = data@.subrange(i as int, n as int);
            proof {
                lemma_find_byte(s, NL);
                if j < n {
                    assert(s[j - i] == data@[j as int]);
                    assert(forall|k: int| 0 <= k < j - i ==> s[k] == data@[i + k] && s[k] != NL);
                    match find_byte(s, NL) {
                        None => {
                            assert(false);
                        },
                        Some(x) => {
                            assert(s[x] == NL);
                            assert(x == j - i);
                        },
                    }
                    assert(s.subrange(0, j - i) =~= data@.subrange(i as int, j as int));
                    assert(s.subrange(j - i + 1, s.len() as int) =~= data@.subrange(
                        j as int + 1,
                        n as int,
                    ));
                } else {
                    assert(forall|k: int| 0 <= k < s.len() ==> s[k] != NL);
                    assert(find_byte(s, NL) is None);
                    assert(s =~= data@.subrange(i as int, j as int));
                }
            }
            let line = copy_range(data, i, j);
            let ghost rest: Seq<u8> = if j < n {
                data@.subrange(j as int + 1, n as int)
            } else {
                Seq::empty()
            };
            proof {
                assert(parse_lines(s) == match parse_record_spec(line@) {
                    Some(e) => seq![e] + parse_lines(rest),
                    None => parse_lines(rest),
                });
            }
            match parse_record(&line) {
                Some((key, ms)) => {
                    let ghost kk = key@;
                    db.insert(key, ms);
                    proof {
                        let e = (kk, ms);
                        assert(parse_record_spec(line@) == Some(e));
                        let done2 = done.push(e);
                        assert(done2.drop_last() =~= done);
                        assert(assoc_map(done2) == assoc_map(done).insert(kk, ms));
                        done = done2;
                        assert(done + parse_lines(rest) =~= (done.drop_last() + (seq![e]
                            + parse_lines(rest))));
                    }
                },
                None => {
                },
            }
            proof {
                if j < n {
                    assert(rest =~= data@.subrange(j as int + 1, n as int));
                } else {
                    assert(rest =~= data@.subrange(n as int, n as int));
                }
            }
            i = if j < n {
                j + 1
            } else {
                n
            };
        }
        proof {
            assert(data@.subrange(n as int, n as int) =~= Seq::<u8>::empty());
            assert(done + Seq::<(Seq<u8>, u64)>::empty() =~= done);
        }
        db
    }
}

/// Membership of a key in a key list.
pub open spec fn key_in(keep: Seq<Seq<u8>>, k: Seq<u8>) -> bool {
    exists|i: int| 0 <= i < keep.len() && keep[i] == k
}

/// Views of a list of concrete keys.
pub open spec fn key_views(ks: Seq<Vec<u8>>) -> Seq<Seq<u8>> {
    ks.map_values(|k: Vec<u8>| k@)
}

/// The records whose keys are in the list, in their original order.
pub open spec fn kept(s: Seq<(Seq<u8>, u64)>, keep: Seq<Seq<u8>>) -> Seq<(Seq<u8>, u64)>
    decreases s.len(),
{
    if s.len() == 0 {
        Seq::empty()
    } else {
        let rest = kept(s.drop_last(), keep);
        if key_in(keep, s.last().0) {
            rest.push(s.last())
        } else {
            rest
        }
    }
}

/// Filtering keeps exactly the listed records with kept keys, in order, and
/// preserves key uniqueness.
pub proof fn lemma_kept_char(s: Seq<(Seq<u8>, u64)>, keep: Seq<Seq<u8>>)
    requires
        unique_keys(s),
    ensures
        unique_keys(kept(s, keep)),
        forall|j: int|
            0 <= j < kept(s, keep).len() ==> key_in(keep, #[trigger] kept(s, keep)[j].0) && exists|
                i: int,
            | 0 <= i < s.len() && s[i] == kept(s, keep)[j],
        forall|i: int|
            0 <= i < s.len() && key_in(keep, #[trigger] s[i].0) ==> exists|j: int|
                0 <= j < kept(s, keep).len() && kept(s, keep)[j] == s[i],
    decreases s.len(),
{
    if s.len() > 0 {
        let dl = s.drop_last();
        assert(unique_keys(dl)) by {
            assert(forall|i: int, j: int| 0 <= i < j < dl.len() ==> dl[i] == s[i] && dl[j] == s[j]);
        }
        lemma_kept_char(dl, keep);
        let rest = kept(dl, keep);
        let whole = kept(s, keep);
        if key_in(keep, s.last().0) {
            assert(whole == rest.push(s.last()));
            assert(unique_keys(whole)) by {
                assert forall|i: int, j: int| 0 <= i < j < whole.len() implies whole[i].0
                    != whole[j].0 by {
                    if j == whole.len() - 1 {
                        let wi = choose|x: int| 0 <= x < dl.len() && dl[x] == rest[i];
                        assert(s[wi] == whole[i]);
                        assert(s[wi].0 != s.last().0);
                    }
                }
            }
            assert forall|j: int|
                0 <= j < whole.len() implies key_in(keep, #[trigger] whole[j].0) && exists|i: int|
                0 <= i < s.len() && s[i] == whole[j] by {
                if j == whole.len() - 1 {
                    assert(s[s.len() - 1] == whole[j]);
                } else {
                    assert(whole[j] == rest[j]);
                    let wi = choose|x: int| 0 <= x < dl.len() && dl[x] == rest[j];
                    assert(s[wi] == whole[j]);
                }
            }
            assert forall|i: int|
                0 <= i < s.len() && key_in(keep, #[trigger] s[i].0) implies exists|j: int|
                0 <= j < whole.len() && whole[j] == s[i] by {
                if i == s.len() - 1 {
                    assert(whole[whole.len() - 1] == s[i]);
                } else {
                    assert(dl[i] == s[i]);
                    let wj = choose|x: int| 0 <= x < rest.len() && rest[x] == dl[i];
                    assert(whole[wj] == s[i]);
                }
            }
        } else {
            assert(whole == rest);
            assert forall|j: int|
                0 <= j < whole.len() implies key_in(keep, #[trigger] whole[j].0) && exists|i: int|
                0 <= i < s.len() && s[i] == whole[j] by {
                let wi = choose|x: int| 0 <= x < dl.len() && dl[x] == rest[j];
                assert(s[wi] == whole[j]);
            }
            assert forall|i: int|
                0 <= i < s.len() && key_in(keep, #[trigger] s[i].0) implies exists|j: int|
                0 <= j < whole.len() && whole[j] == s[i] by {
                assert(i != s.len() - 1);
                assert(dl[i] == s[i]);
                let wj = choose|x: int| 0 <= x < rest.len() && rest[x] == dl[i];
                assert(whole[wj] == s[i]);
            }
        }
    }
}

/// Whether the list holds a key with these bytes.
pub fn key_list_contains(keep: &Vec<Vec<u8>>, k: &Vec<u8>) -> (r: bool)
    ensures
        r == key_in(key_views(keep@), k@),
{
    let mut i: usize = 0;
    while i < keep.len()
        invariant
            0 <= i <= keep@.len(),
            forall|j: int| 0 <= j < i ==> key_views(keep@)[j] != k@,
        decreases keep@.len() - i,
    {
        if bytes_eq(&keep[i], k) {
            assert(key_views(keep@)[i as int] == k@);
            return true;
        }
        assert(key_views(keep@)[i as int] == keep@[i as int]@);
        i += 1;
    }
    assert(forall|j: int| 0 <= j < key_views(keep@).len() ==> key_views(keep@)[j] != k@);
    false
}

impl ResumeDb {
    /// The stored keys, in file order.
    pub fn keys(&self) -> (r: Vec<Vec<u8>>)
        ensures
            r@.len() == self.records().len(),
            forall|i: int| 0 <= i < r@.len() ==> (#[trigger] r@[i])@ == self.records()[i].0,
    {
        let mut r: Vec<Vec<u8>> = Vec::new();
        let mut i: usize = 0;
        while i < self.entries.len()
            invariant
                0 <= i <= self.entries@.len(),
                self.records().len() == self.entries@.len(),
                r@.len() == i,
                forall|j: int| 0 <= j < i ==> (#[trigger] r@[j])@ == self.records()[j].0,
            decreases self.entries@.len() - i,
        {
            let k = copy_range(&self.entries[i].0, 0, self.entries[i].0.len());
            assert(k@ =~= self.entries@[i as int].0@);
            r.push(k);
            i += 1;
        }
        r
    }

    /// Drops every record whose key is not in the list.  After the call the
    /// mapping holds exactly the previously held keys that are listed, with
    /// their values unchanged: no key outside the list survives.
    pub fn retain_keys(&mut self, keep: &Vec<Vec<u8>>)
        requires
            old(self).wf(),
        ensures
            final(self).wf(),
            forall|k: Seq<u8>| #[trigger]
                final(self)@.dom().contains(k) <==> old(self)@.dom().contains(k) && key_in(
                    key_views(keep@),
                    k,
                ),
            forall|k: Seq<u8>| #[trigger]
                final(self)@.dom().contains(k) ==> final(self)@[k] == old(self)@[k],
    {
        let ghost ev_old = old(self).records();
        let ghost keepv = key_views(keep@);
        let mut out: Vec<(Vec<u8>, u64)> = Vec::new();
        let mut i: usize = 0;
        proof {
            assert(entry_views(out@) =~= kept(ev_old.subrange(0, 0), keepv));
        }
        while i < self.entries.len()
            invariant
                0 <= i <= self.entries@.len(),
                self.records() == ev_old,
                ev_old.len() == self.entries@.len(),
                entry_views(out@) == kept(ev_old.subrange(0, i as int), keepv),
                keepv == key_views(keep@),
            decreases self.entries@.len() - i,
        {
            proof {
                let pre = ev_old.subrange(0, i as int);
                let ext = ev_old.subrange(0, i as int + 1);
                assert(ext.drop_last() =~= pre);
                assert(ext.last() == ev_old[i as int]);
                assert(ev_old[i as int].0 == self.entries@[i as int].0@);
            }
            if key_list_contains(keep, &self.entries[i].0) {
                let kc = copy_range(&self.entries[i].0, 0, self.entries[i].0.len());
                let pos = self.entries[i].1;
                assert(kc@ =~= self.entries@[i as int].0@);
                out.push((kc, pos));
                proof {
                    assert(entry_views(out@) =~= kept(ev_old.subrange(0, i as int + 1), keepv));
                }
            } else {
                proof {
                    assert(entry_views(out@) =~= kept(ev_old.subrange(0, i as int + 1), keepv));
                }
            }
            i += 1;
        }
        self.entries = out;
        proof {
            assert(ev_old.subrange(0, ev_old.len() as int) =~= ev_old);
            let kv = kept(ev_old, keepv);
            assert(self.records() == kv);
            lemma_kept_char(ev_old, keepv);
            lemma_assoc_map_char(ev_old);
            lemma_assoc_map_char(kv);
            assert forall|k: Seq<u8>| #[trigger]
                self@.dom().contains(k) implies old(self)@.dom().contains(k) && key_in(keepv, k)
                && self@[k] == old(self)@[k] by {
                let j = choose|j: int| 0 <= j < kv.len() && kv[j].0 == k;
                assert(key_in(keepv, kv[j].0));
                let i2 = choose|x: int| 0 <= x < ev_old.len() && ev_old[x] == kv[j];
                assert(ev_old[i2].0 == k);
                assert(self@[k] == kv[j].1);
                assert(old(self)@[k] == ev_old[i2].1);
            }
            assert forall|k: Seq<u8>|
                old(self)@.dom().contains(k) && key_in(keepv, k) implies #[trigger] self@.dom()
                .contains(k) by {
                let i2 = choose|x: int| 0 <= x < ev_old.len() && ev_old[x].0 == k;
                let j = choose|x: int| 0 <= x < kv.len() && kv[x] == ev_old[i2];
                assert(kv[j].0 == k);
            }
        }
    }
}

/// A store rendered with clean keys reads back as exactly its own records.
#[verifier::rlimit(50)]
pub proof fn lemma_parse_render_id(s: Seq<(Seq<u8>, u64)>)
    requires
        forall|i: int| 0 <= i < s.len() ==> clean_key(#[trigger] s[i].0),
    ensures
        parse_lines(render(s)) == s,
    decreases s.len(),
{
    if s.len() == 0 {
        assert(parse_lines(render(s)) =~= s);
    } else {
        let e = s[0];
        let key = e.0;
        let pt = pos_text(e.1);
        let rec = record_text(key, e.1);
        let rest = render(s.drop_first());
        let whole = rec + rest;
        assert(render(s) == whole);
        assert(all_digits(crate::posfmt::dec_digits(e.1 as int / 1000))) by {
            crate::posfmt::lemma_dec_digits(e.1 as int / 1000);
        }
        assert(forall|x: int| 0 <= x < pt.len() ==> pt[x] != NL && pt[x] != TAB) by {
            assert(forall|x: int|
                0 <= x < pt.len() ==> crate::posfmt::is_digit(#[trigger] pt[x]) || pt[x] == DOT);
        }
        let nlpos = rec.len() - 1;
        assert(rec[nlpos] == NL);
        assert(whole[nlpos] == NL);
        assert forall|x: int| 0 <= x < nlpos implies whole[x] != NL by {
            assert(whole[x] == rec[x]);
            if x < key.len() {
                assert(rec[x] == key[x]);
                assert(clean_key(key));
            } else if x == key.len() {
                assert(rec[x] == TAB);
            } else {
                assert(rec[x] == pt[x - key.len() - 1]);
            }
        }
        lemma_find_byte(whole, NL);
        match find_byte(whole, NL) {
            None => {
                assert(false);
            },
            Some(x) => {
                assert(x == nlpos);
            },
        }
        let line = whole.subrange(0, nlpos);
        assert(line =~= key + seq![TAB] + pt);
        assert(whole.subrange(nlpos + 1, whole.len() as int) =~= rest);
        // the first tab in the line ends the key
        assert(line[key.len() as int] == TAB);
        assert forall|x: int| 0 <= x < key.len() implies line[x] != TAB by {
            assert(line[x] == key[x]);
            assert(clean_key(key));
        }
        lemma_find_byte(line, TAB);
        match find_byte(line, TAB) {
            None => {
                assert(false);
            },
            Some(t) => {
                assert(t == key.len());
            },
        }
        assert(line.subrange(0, key.len() as int) =~= key);
        assert(line.subrange(key.len() as int + 1, line.len() as int) =~= pt);
        lemma_position_roundtrip(e.1);
        assert(parse_record_spec(line) == Some((key, e.1)));
        assert((key, e.1) == e);
        assert(forall|i: int|
            0 <= i < s.drop_first().len() ==> clean_key(#[trigger] s.drop_first()[i].0));
        lemma_parse_render_id(s.drop_first());
        assert(parse_lines(whole) == seq![e] + s.drop_first());
        assert(seq![e] + s.drop_first() =~= s);
    }
}

/// Saving a well-formed store whose keys are free of tab and newline bytes
/// and loading the bytes back yields an equal mapping.
pub proof fn lemma_save_load_roundtrip(db: &ResumeDb)
    requires
        db.wf(),
        forall|i: int| 0 <= i < db.records().len() ==> clean_key(#[trigger] db.records()[i].0),
    ensures
        parse_lines(render(db.records())) == db.records(),
        assoc_map(parse_lines(render(db.records()))) == db@,
{
    lemma_parse_render_id(db.records());
}

/// Byte-vector equality, decided by contents.
pub fn bytes_eq(a: &Vec<u8>, b: &Vec<u8>) -> (r: bool)
    ensures
        r == (a@ == b@),
{
    let r = a == b;
    proof {
        if r {
            assert(a@ =~= b@);
        } else {
            if a@ == b@ {
                assert(a@.len() == b@.len());
                assert(forall|i: int| 0 <= i < a@.len() ==> a@[i] == b@[i]);
                assert(false);
            }
        }
    }
    r
}

/// Replacing the record at `i` by one with the same key updates the map at
/// that key alone.
proof fn lemma_two_char_maps_equal(
    ev_old: Seq<(Seq<u8>, u64)>,
    ev_new: Seq<(Seq<u8>, u64)>,
    i: int,
    k: Seq<u8>,
    ms: u64,
)
    requires
        unique_keys(ev_old),
        unique_keys(ev_new),
        0 <= i < ev_old.len(),
        ev_old[i].0 == k,
        ev_new == ev_old.update(i, (k, ms)),
    ensures
        assoc_map(ev_new) =~= assoc_map(ev_old).insert(k, ms),
{
    lemma_assoc_map_char(ev_old);
    lemma_assoc_map_char(ev_new);
    let lhs = assoc_map(ev_new);
    let rhs = assoc_map(ev_old).insert(k, ms);
    assert forall|x: Seq<u8>| #[trigger] lhs.dom().contains(x) implies rhs.dom().contains(x) by {
        let j = choose|j: int| 0 <= j < ev_new.len() && ev_new[j].0 == x;
        if j != i {
            assert(ev_old[j].0 == x);
        }
    }
    assert forall|x: Seq<u8>| #[trigger] rhs.dom().contains(x) implies lhs.dom().contains(x) by {
        if x == k {
            assert(ev_new[i].0 == x);
        } else {
            let j = choose|j: int| 0 <= j < ev_old.len() && ev_old[j].0 == x;
            assert(ev_new[j].0 == x);
        }
    }
    assert forall|x: Seq<u8>| lhs.dom().contains(x) && rhs.dom().contains(x) implies #[trigger] lhs[x]
        == #[trigger] rhs[x] by {
        if x == k {
            assert(lhs[x] == ev_new[i].1);
        } else {
            let j = choose|j: int| 0 <= j < ev_new.len() && ev_new[j].0 == x;
            assert(j != i);
            assert(ev_old[j].0 == x);
            assert(lhs[x] == ev_new[j].1);
            assert(rhs[x] == ev_old[j].1);
        }
    }
}

/// Removing the record at `i` removes exactly its key from the map.
proof fn lemma_removed_char_maps(
    ev_old: Seq<(Seq<u8>, u64)>,
    ev_new: Seq<(Seq<u8>, u64)>,
    i: int,
    k: Seq<u8>,
)
    requires
        unique_keys(ev_old),
        unique_keys(ev_new),
        0 <= i < ev_old.len(),
        ev_old[i].0 == k,
        ev_new == ev_old.remove(i),
    ensures
        assoc_map(ev_new) =~= assoc_map(ev_old).remove(k),
{
    lemma_assoc_map_char(ev_old);
    lemma_assoc_map_char(ev_new);
    let lhs = assoc_map(ev_new);
    let rhs = assoc_map(ev_old).remove(k);
    assert forall|x: Seq<u8>| #[trigger] lhs.dom().contains(x) implies rhs.dom().contains(x) by {
        let j = choose|j: int| 0 <= j < ev_new.len() && ev_new[j].0 == x;
        if j < i {
            assert(ev_old[j].0 == x);
            assert(x != k);
        } else {
            assert(ev_old[j + 1].0 == x);
            assert(x != k);
        }
    }
    assert forall|x: Seq<u8>| #[trigger] rhs.dom().contains(x) implies lhs.dom().contains(x) by {
        let j = choose|j: int| 0 <= j < ev_old.len() && ev_old[j].0 == x;
        assert(j != i);
        if j < i {
            assert(ev_new[j].0 == x);
        } else {
            assert(ev_new[j - 1] == ev_old[j]);
        }
    }
    assert forall|x: Seq<u8>| lhs.dom().contains(x) && rhs.dom().contains(x) implies #[trigger] lhs[x]
        == #[trigger] rhs[x] by {
        let j = choose|j: int| 0 <= j < ev_new.len() && ev_new[j].0 == x;
        if j < i {
            assert(ev_old[j].0 == x);
            assert(rhs[x] == ev_old[j].1);
        } else {
            assert(ev_old[j + 1].0 == x);
            assert(rhs[x] == ev_old[j + 1].1);
        }
    }
}

} // verus!
