//! DNS queries that wait for their response.
use crate::text;
use vstd::prelude::*;

verus! {

/// How many queries may wait at a time.
pub const MAX_OUTSTANDING_QUERIES: usize = 4096;

/// A query that waits for its response, and when it was seen.
#[derive(Debug)]
struct DnsQuery {
    transaction_id: u16,
    client: String,
    server: String,
    started: u128,
}

/// The queries that wait for their response.
#[derive(Debug)]
pub struct DnsQueries {
    entries: Vec<DnsQuery>,
}

/// What identifies a query: its number, who asked and who was asked.
pub struct QueryView {
    pub transaction_id: u16,
    pub client: Seq<char>,
    pub server: Seq<char>,
}

/// The model of [`DnsQueries`]: when each query was seen.
pub type QueriesView = Map<QueryView, u128>;

impl DnsQuery {
    spec fn key(self) -> QueryView {
        QueryView {
            transaction_id: self.transaction_id,
            client: self.client@,
            server: self.server@,
        }
    }
}

/// The map that the entries describe.
spec fn entries_map(entries: Seq<DnsQuery>) -> QueriesView
    decreases entries.len(),
{
    if entries.len() == 0 {
        Map::empty()
    } else {
        entries_map(entries.drop_last()).insert(entries.last().key(), entries.last().started)
    }
}

/// No query occurs twice.
spec fn distinct(entries: Seq<DnsQuery>) -> bool {
    forall|i: int, j: int|
        0 <= i < j < entries.len() ==> #[trigger] entries[i].key() != #[trigger] entries[j].key()
}

impl DnsQueries {
    #[verifier::type_invariant]
    spec fn queries_differ(self) -> bool {
        distinct(self.entries@)
    }
}

impl View for DnsQueries {
    type V = QueriesView;

    closed spec fn view(&self) -> QueriesView {
        entries_map(self.entries@)
    }
}

proof fn lemma_entries_map(entries: Seq<DnsQuery>)
    requires
        distinct(entries),
    ensures
        entries_map(entries).dom().finite(),
        entries_map(entries).len() == entries.len(),
        forall|key: QueryView| #[trigger]
            entries_map(entries).contains_key(key) <==> exists|i: int|
                0 <= i < entries.len() && #[trigger] entries[i].key() == key,
        forall|i: int|
            0 <= i < entries.len() ==> entries_map(entries)[#[trigger] entries[i].key()]
                == entries[i].started,
    decreases entries.len(),
{
    if entries.len() > 0 {
        let front = entries.drop_last();
        let last = entries.last();
        assert forall|i: int, j: int| 0 <= i < j < front.len() implies #[trigger] front[i].key()
            != #[trigger] front[j].key() by {
            assert(entries[i].key() != entries[j].key());
        }
        lemma_entries_map(front);
        assert(!entries_map(front).contains_key(last.key())) by {
            if entries_map(front).contains_key(last.key()) {
                let i = choose|i: int|
                    0 <= i < front.len() && #[trigger] front[i].key() == last.key();
                assert(entries[i].key() != entries[entries.len() - 1].key());
            }
        }
        assert forall|key: QueryView| #[trigger]
            entries_map(entries).contains_key(key) <==> exists|i: int|
                0 <= i < entries.len() && #[trigger] entries[i].key() == key by {
            if entries_map(entries).contains_key(key) {
                if key == last.key() {
                    assert(entries[entries.len() - 1].key() == key);
                } else {
                    let i = choose|i: int|
                        0 <= i < front.len() && #[trigger] front[i].key() == key;
                    assert(entries[i].key() == key);
                }
            }
            if exists|i: int| 0 <= i < entries.len() && #[trigger] entries[i].key() == key {
                let i = choose|i: int|
                    0 <= i < entries.len() && #[trigger] entries[i].key() == key;
                if i < front.len() {
                    assert(front[i].key() == key);
                }
            }
        }
        assert forall|i: int| 0 <= i < entries.len() implies entries_map(
            entries,
        )[#[trigger] entries[i].key()] == entries[i].started by {
            if i < front.len() {
                assert(front[i].key() == entries[i].key());
                assert(entries[i].key() != entries[entries.len() - 1].key());
            }
        }
    } else {
        assert(entries_map(entries).dom() =~= Set::empty());
    }
}

impl DnsQueries {
    /// No queries.
    pub fn new() -> (r: Self)
        ensures
            r@ == QueriesView::empty(),
    {
        DnsQueries { entries: Vec::new() }
    }

    /// The number of queries.
    pub fn len(&self) -> (r: usize)
        ensures
            r == self@.len(),
            self@.dom().finite(),
    {
        proof {
            use_type_invariant(self);
            lemma_entries_map(self.entries@);
        }
        self.entries.len()
    }

    /// Looks for a query.
    fn position(&self, transaction_id: u16, client: &str, server: &str) -> (r: Option<usize>)
        ensures
            match r {
                Some(i) => i < self.entries@.len() && self.entries@[i as int].key() == (QueryView {
                    transaction_id,
                    client: client@,
                    server: server@,
                }),
                None => forall|i: int|
                    0 <= i < self.entries@.len() ==> #[trigger] self.entries@[i].key() != (
                    QueryView { transaction_id, client: client@, server: server@ }),
            },
    {
        let ghost key = QueryView { transaction_id, client: client@, server: server@ };
        let mut i: usize = 0;
        while i < self.entries.len()
            invariant
                i <= self.entries@.len(),
                key == (QueryView { transaction_id, client: client@, server: server@ }),
                forall|k: int| 0 <= k < i ==> #[trigger] self.entries@[k].key() != key,
            decreases self.entries@.len() - i,
        {
            if self.entries[i].transaction_id == transaction_id && text::text_eq(
                self.entries[i].client.as_str(),
                client,
            ) && text::text_eq(self.entries[i].server.as_str(), server) {
                return Some(i);
            }
            i += 1;
        }
        None
    }

    /// Forgets a query and says when it was seen.
    pub fn remove(&mut self, transaction_id: u16, client: &str, server: &str) -> (r: Option<u128>)
        ensures
            ({
                let key = QueryView { transaction_id, client: client@, server: server@ };
                &&& final(self)@ == old(self)@.remove(key)
                &&& match r {
                    Some(started) => old(self)@.contains_key(key) && old(self)@[key] == started,
                    None => !old(self)@.contains_key(key),
                }
            }),
    {
        let ghost key = QueryView { transaction_id, client: client@, server: server@ };
        let ghost before = self.entries@;
        proof {
            use_type_invariant(&*self);
            lemma_entries_map(before);
        }
        match self.position(transaction_id, client, server) {
            None => {
                assert(self@ =~= self@.remove(key));
                None
            },
            Some(i) => {
                let mut entries: Vec<DnsQuery> = Vec::new();
                std::mem::swap(&mut entries, &mut self.entries);
                let query = entries.remove(i);
                let ghost after = entries@;
                proof {
                    assert forall|a: int, b: int| 0 <= a < b < after.len() implies #[trigger]
                    after[a].key() != #[trigger] after[b].key() by {
                        let a0 = if a < i {
                            a
                        } else {
                            a + 1
                        };
                        let b0 = if b < i {
                            b
                        } else {
                            b + 1
                        };
                        assert(before[a0].key() != before[b0].key());
                    }
                    lemma_entries_map(after);
                    assert forall|k: QueryView| #[trigger]
                        entries_map(after).contains_key(k) <==> entries_map(before).remove(
                            key,
                        ).contains_key(k) by {
                        if entries_map(after).contains_key(k) {
                            let a = choose|a: int|
                                0 <= a < after.len() && #[trigger] after[a].key() == k;
                            let a0 = if a < i {
                                a
                            } else {
                                a + 1
                            };
                            assert(before[a0].key() == k);
                            if a0 < i {
                                assert(before[a0].key() != before[i as int].key());
                            } else {
                                assert(before[i as int].key() != before[a0].key());
                            }
                        }
                        if entries_map(before).remove(key).contains_key(k) {
                            let b = choose|b: int|
                                0 <= b < before.len() && #[trigger] before[b].key() == k;
                            let b0 = if b < i {
                                b
                            } else {
                                b - 1
                            };
                            assert(after[b0].key() == k);
                        }
                    }
                    assert forall|k: QueryView| #[trigger]
                        entries_map(after).contains_key(k) implies entries_map(after)[k]
                        == entries_map(before)[k] by {
                        let a = choose|a: int|
                            0 <= a < after.len() && #[trigger] after[a].key() == k;
                        let a0 = if a < i {
                            a
                        } else {
                            a + 1
                        };
                        assert(before[a0].key() == k);
                    }
                    assert(entries_map(after) =~= entries_map(before).remove(key));
                }
                self.entries = entries;
                Some(query.started)
            },
        }
    }

    /// Remembers a query; where too many wait, all earlier ones are forgotten.
    pub fn insert(&mut self, transaction_id: u16, client: String, server: String, started: u128)
        ensures
            final(self)@ == with_query(
                old(self)@,
                QueryView { transaction_id, client: client@, server: server@ },
                started,
            ),
    {
        let ghost key = QueryView { transaction_id, client: client@, server: server@ };
        let ghost queries = self@;
        if self.len() >= MAX_OUTSTANDING_QUERIES {
            self.entries = Vec::new();
        }
        let ghost base = self@;
        let known = self.remove(transaction_id, client.as_str(), server.as_str());
        let ghost before = self.entries@;
        proof {
            use_type_invariant(&*self);
            lemma_entries_map(before);
        }
        let mut entries: Vec<DnsQuery> = Vec::new();
        std::mem::swap(&mut entries, &mut self.entries);
        entries.push(DnsQuery { transaction_id, client, server, started });
        proof {
            let after = entries@;
            assert(after.drop_last() =~= before);
            assert forall|a: int, b: int| 0 <= a < b < after.len() implies #[trigger] after[a].key()
                != #[trigger] after[b].key() by {
                if b < before.len() {
                    assert(before[a].key() != before[b].key());
                } else {
                    assert(entries_map(before).contains_key(before[a].key()));
                }
            }
            assert(base.remove(key).insert(key, started) =~= base.insert(key, started));
        }
        self.entries = entries;
    }
}

/// The queries after one more; where too many wait, all earlier ones are forgotten.
pub open spec fn with_query(queries: QueriesView, key: QueryView, started: u128) -> QueriesView {
    if queries.len() >= MAX_OUTSTANDING_QUERIES {
        QueriesView::empty().insert(key, started)
    } else {
        queries.insert(key, started)
    }
}

/// Never more than [`MAX_OUTSTANDING_QUERIES`] queries wait, whatever is asked and answered.
pub proof fn outstanding_queries_stay_bounded(
    queries: QueriesView,
    key: QueryView,
    started: u128,
)
    requires
        queries.dom().finite(),
        queries.len() <= MAX_OUTSTANDING_QUERIES,
    ensures
        with_query(queries, key, started).dom().finite(),
        with_query(queries, key, started).len() <= MAX_OUTSTANDING_QUERIES,
        queries.remove(key).dom().finite(),
        queries.remove(key).len() <= MAX_OUTSTANDING_QUERIES,
        QueriesView::empty().dom().finite(),
        QueriesView::empty().len() == 0,
{
    assert(QueriesView::empty().dom() =~= Set::empty());
    assert(queries.remove(key).dom() =~= queries.dom().remove(key));
}

} // verus!
