//! The record table: all persisted links, keyed by
//! `(namespace, short_form)`.
//!
//! The table's contents are modelled as a sequence of [`RecordModel`] values
//! in which keys are unique.  `lookup`, `upserted`, `links_in` and
//! `reverse_matches` are the mathematical meanings of the four operations;
//! every executable method is specified against them, and the laws at the
//! bottom state what any sequence of upserts guarantees.

use vstd::prelude::*;

use crate::link::{link_of, Link, LinkModel, Record, RecordModel};

verus! {

/// Whether two records collide on the `(namespace, short_form)` key.
pub open spec fn same_key(a: RecordModel, b: RecordModel) -> bool {
    a.namespace == b.namespace && a.short_form == b.short_form
}

/// Whether a record sits at the given key.
pub open spec fn key_matches(r: RecordModel, namespace: Seq<char>, short_form: Seq<char>) -> bool {
    r.namespace == namespace && r.short_form == short_form
}

/// No two records of the table share a key.
pub open spec fn keys_unique(s: Seq<RecordModel>) -> bool {
    forall|i: int, j: int| 0 <= i < j < s.len() ==> !#[trigger] same_key(s[i], s[j])
}

/// The link stored at a key, if any: the meaning of `get`.
pub open spec fn lookup(s: Seq<RecordModel>, namespace: Seq<char>, short_form: Seq<char>) -> Option<
    LinkModel,
>
    decreases s.len(),
{
    if s.len() == 0 {
        None
    } else if key_matches(s[0], namespace, short_form) {
        Some(link_of(s[0]))
    } else {
        lookup(s.drop_first(), namespace, short_form)
    }
}

/// The table after an insert-or-replace of `r`: the meaning of `upsert`.
/// A record at the same key is replaced in place; otherwise `r` is appended.
pub open spec fn upserted(s: Seq<RecordModel>, r: RecordModel) -> Seq<RecordModel>
    decreases s.len(),
{
    if s.len() == 0 {
        seq![r]
    } else if key_matches(s[0], r.namespace, r.short_form) {
        seq![r] + s.drop_first()
    } else {
        seq![s[0]] + upserted(s.drop_first(), r)
    }
}

/// All links of a namespace, in table order: the meaning of `list`.
pub open spec fn links_in(s: Seq<RecordModel>, namespace: Seq<char>) -> Seq<LinkModel>
    decreases s.len(),
{
    if s.len() == 0 {
        Seq::empty()
    } else {
        (if s[0].namespace == namespace {
            seq![link_of(s[0])]
        } else {
            Seq::empty()
        }) + links_in(s.drop_first(), namespace)
    }
}

/// All links of a namespace whose long form equals the argument exactly, in
/// table order: the meaning of `reverse_lookup`.  No normalization.
pub open spec fn reverse_matches(
    s: Seq<RecordModel>,
    namespace: Seq<char>,
    long_form: Seq<char>,
) -> Seq<LinkModel>
    decreases s.len(),
{
    if s.len() == 0 {
        Seq::empty()
    } else {
        (if s[0].namespace == namespace && s[0].long_form == long_form {
            seq![link_of(s[0])]
        } else {
            Seq::empty()
        }) + reverse_matches(s.drop_first(), namespace, long_form)
    }
}

/// The in-memory record table.  The surrounding process persists it through
/// the snapshot codec; nothing else may touch the persisted form.
#[derive(Debug)]
pub struct Store {
    records: Vec<Record>,
}

impl View for Store {
    type V = Seq<RecordModel>;

    closed spec fn view(&self) -> Seq<RecordModel> {
        self.records.deep_view()
    }
}

impl Store {
    /// Table invariant: keys are unique.
    pub open spec fn wf(&self) -> bool {
        keys_unique(self@)
    }

    /// An empty table.
    pub fn new() -> (s: Store)
        ensures
            s@ == Seq::<RecordModel>::empty(),
            s.wf(),
    {
        let s = Store { records: Vec::new() };
        proof {
            assert(s@ =~= Seq::<RecordModel>::empty());
        }
        s
    }

    /// A table holding exactly the given records, provided their keys are
    /// unique.
    pub fn from_records(records: Vec<Record>) -> (s: Store)
        requires
            keys_unique(records.deep_view()),
        ensures
            s@ == records.deep_view(),
            s.wf(),
    {
        Store { records }
    }

    /// How many records the table holds.
    pub fn len(&self) -> (n: usize)
        ensures
            n == self@.len(),
    {
        self.records.len()
    }

    /// Read access to the rows, in table order.
    pub fn records(&self) -> (r: &Vec<Record>)
        ensures
            r.deep_view() == self@,
    {
        &self.records
    }

    /// Whether the record at position `i` sits at the given key.
    fn key_at_matches(&self, i: usize, namespace: &String, short_form: &String) -> (b: bool)
        requires
            i < self@.len(),
        ensures
            b == key_matches(self@[i as int], namespace@, short_form@),
    {
        let row = &self.records[i];
        proof {
            assert(self@[i as int] == (*row)@);
        }
        row.namespace == *namespace && row.short_form == *short_form
    }

    /// Insert-or-replace keyed by `(namespace, short_form)`: replaces
    /// `long_form` and `created_at` of an existing record, never its key;
    /// appends a fresh record otherwise.
    pub fn upsert(&mut self, record: Record)
        requires
            old(self).wf(),
        ensures
            final(self).wf(),
            final(self)@ == upserted(old(self)@, record@),
    {
        let ghost s0 = self@;
        let ghost r = record@;
        let found = self.find_key(&record.namespace, &record.short_form);
        match found {
            Some(i) => {
                self.records[i] = record;
                proof {
                    assert forall|j: int| 0 <= j < self@.len() implies self@[j] == s0.update(
                        i as int,
                        r,
                    )[j] by {
                        assert(self@[j] == self.records@[j]@);
                    }
                    assert(self@ =~= s0.update(i as int, r));
                    lemma_upserted_is_update(s0, r, i as int);
                    assert forall|a: int, b: int| 0 <= a < b < self@.len() implies !#[trigger] same_key(
                        self@[a],
                        self@[b],
                    ) by {
                        if a != i && b != i {
                            assert(!same_key(s0[a], s0[b]));
                        } else if a == i as int {
                            assert(!same_key(s0[a], s0[b]));
                            assert(same_key(s0[a], r));
                        } else {
                            assert(!same_key(s0[a], s0[b]));
                            assert(same_key(s0[b], r));
                        }
                    }
                }
            },
            None => {
                self.records.push(record);
                proof {
                    assert forall|j: int| 0 <= j < self@.len() implies self@[j] == s0.push(r)[j] by {
                        assert(self@[j] == self.records@[j]@);
                    }
                    assert(self@ =~= s0.push(r));
                    lemma_upserted_is_push(s0, r);
                    assert forall|a: int, b: int| 0 <= a < b < self@.len() implies !#[trigger] same_key(
                        self@[a],
                        self@[b],
                    ) by {
                        if b == s0.len() {
                            assert(!key_matches(s0[a], r.namespace, r.short_form));
                        } else {
                            assert(!same_key(s0[a], s0[b]));
                        }
                    }
                }
            },
        }
    }

    /// Position of the record at the given key, if any: the first match,
    /// which under unique keys is the only one.
    fn find_key(&self, namespace: &String, short_form: &String) -> (r: Option<usize>)
        ensures
            match r {
                Some(i) => i < self@.len() && key_matches(self@[i as int], namespace@, short_form@)
                    && forall|j: int|
                    0 <= j < i ==> !key_matches(#[trigger] self@[j], namespace@, short_form@),
                None => forall|j: int|
                    0 <= j < self@.len() ==> !key_matches(
                        #[trigger] self@[j],
                        namespace@,
                        short_form@,
                    ),
            },
    {
        let n = self.records.len();
        let mut i: usize = 0;
        while i < n
            invariant
                n == self@.len(),
                0 <= i <= n,
                forall|j: int| 0 <= j < i ==> !key_matches(#[trigger] self@[j], namespace@, short_form@),
            decreases n - i,
        {
            if self.key_at_matches(i, namespace, short_form) {
                return Some(i);
            }
            i += 1;
        }
        None
    }

    /// At most one match by the unique key: the link stored at
    /// `(namespace, short_form)`, or `None`.
    pub fn get(&self, namespace: &String, short_form: &String) -> (r: Option<Link>)
        ensures
            r.deep_view() == lookup(self@, namespace@, short_form@),
    {
        let found = self.find_key(namespace, short_form);
        match found {
            Some(i) => {
                let row = &self.records[i];
                proof {
                    assert(self@[i as int] == (*row)@);
                    lemma_lookup_finds_first(self@, namespace@, short_form@, i as int);
                }
                Some(
                    Link {
                        short_form: row.short_form.clone(),
                        long_form: row.long_form.clone(),
                        created_at: row.created_at.clone(),
                    },
                )
            },
            None => {
                proof {
                    lemma_lookup_misses(self@, namespace@, short_form@);
                }
                None
            },
        }
    }

    /// All links of the namespace, complete and in table order — the order
    /// is deterministic for one table state.
    pub fn list(&self, namespace: &String) -> (r: Vec<Link>)
        ensures
            r.deep_view() == links_in(self@, namespace@),
    {
        let n = self.records.len();
        let mut out: Vec<Link> = Vec::new();
        let mut i: usize = 0;
        proof {
            assert(out.deep_view() =~= links_in(self@.take(0), namespace@));
        }
        while i < n
            invariant
                n == self@.len(),
                0 <= i <= n,
                out.deep_view() == links_in(self@.take(i as int), namespace@),
            decreases n - i,
        {
            let ghost taken = self@.take(i as int);
            let row = &self.records[i];
            proof {
                assert(self@.take(i + 1) =~= taken.push(self@[i as int]));
                lemma_links_in_push(taken, self@[i as int], namespace@);
            }
            if row.namespace == *namespace {
                let found = Link {
                    short_form: row.short_form.clone(),
                    long_form: row.long_form.clone(),
                    created_at: row.created_at.clone(),
                };
                let ghost before = out.deep_view();
                out.push(found);
                proof {
                    assert(out.deep_view() =~= before.push(found@));
                    assert(out.deep_view() =~= links_in(self@.take(i + 1), namespace@));
                }
            } else {
                proof {
                    assert(out.deep_view() =~= links_in(self@.take(i + 1), namespace@));
                }
            }
            i += 1;
        }
        proof {
            assert(self@.take(n as int) =~= self@);
        }
        out
    }

    /// All links of the namespace whose `long_form` equals the argument
    /// exactly, in table order; an empty result is an answer, not an error.
    pub fn reverse_lookup(&self, namespace: &String, long_form: &String) -> (r: Vec<Link>)
        ensures
            r.deep_view() == reverse_matches(self@, namespace@, long_form@),
    {
        let n = self.records.len();
        let mut out: Vec<Link> = Vec::new();
        let mut i: usize = 0;
        proof {
            assert(out.deep_view() =~= reverse_matches(self@.take(0), namespace@, long_form@));
        }
        while i < n
            invariant
                n == self@.len(),
                0 <= i <= n,
                out.deep_view() == reverse_matches(self@.take(i as int), namespace@, long_form@),
            decreases n - i,
        {
            let ghost taken = self@.take(i as int);
            let row = &self.records[i];
            proof {
                assert(self@.take(i + 1) =~= taken.push(self@[i as int]));
                lemma_reverse_matches_push(taken, self@[i as int], namespace@, long_form@);
            }
            if row.namespace == *namespace && row.long_form == *long_form {
                let found = Link {
                    short_form: row.short_form.clone(),
                    long_form: row.long_form.clone(),
                    created_at: row.created_at.clone(),
                };
                let ghost before = out.deep_view();
                out.push(found);
                proof {
                    assert(out.deep_view() =~= before.push(found@));
                    assert(out.deep_view() =~= reverse_matches(self@.take(i + 1), namespace@, long_form@));
                }
            } else {
                proof {
                    assert(out.deep_view() =~= reverse_matches(self@.take(i + 1), namespace@, long_form@));
                }
            }
            i += 1;
        }
        proof {
            assert(self@.take(n as int) =~= self@);
        }
        out
    }
}

/// `lookup` returns the first match; under unique keys, the only one.
proof fn lemma_lookup_finds_first(
    s: Seq<RecordModel>,
    namespace: Seq<char>,
    short_form: Seq<char>,
    i: int,
)
    requires
        0 <= i < s.len(),
        forall|j: int| 0 <= j < i ==> !key_matches(#[trigger] s[j], namespace, short_form),
        key_matches(s[i], namespace, short_form),
    ensures
        lookup(s, namespace, short_form) == Some(link_of(s[i])),
    decreases i,
{
    if i > 0 {
        lemma_lookup_finds_first(s.drop_first(), namespace, short_form, i - 1);
    }
}

/// Where no record sits at the key, `lookup` finds nothing.
proof fn lemma_lookup_misses(s: Seq<RecordModel>, namespace: Seq<char>, short_form: Seq<char>)
    requires
        forall|j: int| 0 <= j < s.len() ==> !key_matches(#[trigger] s[j], namespace, short_form),
    ensures
        lookup(s, namespace, short_form) is None,
    decreases s.len(),
{
    if s.len() > 0 {
        lemma_lookup_misses(s.drop_first(), namespace, short_form);
    }
}

/// Replacing the first (and under unique keys, only) record at `r`'s key is
/// an update in place.
proof fn lemma_upserted_is_update(s: Seq<RecordModel>, r: RecordModel, i: int)
    requires
        0 <= i < s.len(),
        forall|j: int| 0 <= j < i ==> !key_matches(#[trigger] s[j], r.namespace, r.short_form),
        key_matches(s[i], r.namespace, r.short_form),
    ensures
        upserted(s, r) == s.update(i, r),
    decreases i,
{
    if i == 0 {
        assert(upserted(s, r) =~= s.update(0, r));
    } else {
        lemma_upserted_is_update(s.drop_first(), r, i - 1);
        assert(s.drop_first().update(i - 1, r) =~= s.update(i, r).drop_first());
        assert(upserted(s, r) =~= seq![s[0]] + s.update(i, r).drop_first());
        assert(upserted(s, r) =~= s.update(i, r));
    }
}

/// Where no record sits at `r`'s key, the upsert appends `r`.
proof fn lemma_upserted_is_push(s: Seq<RecordModel>, r: RecordModel)
    requires
        forall|j: int| 0 <= j < s.len() ==> !key_matches(#[trigger] s[j], r.namespace, r.short_form),
    ensures
        upserted(s, r) == s.push(r),
    decreases s.len(),
{
    if s.len() == 0 {
        assert(upserted(s, r) =~= s.push(r));
    } else {
        lemma_upserted_is_push(s.drop_first(), r);
        assert(upserted(s, r) =~= seq![s[0]] + s.drop_first().push(r));
        assert(seq![s[0]] + s.drop_first().push(r) =~= s.push(r));
    }
}

/// Appending a record extends a namespace listing by that record's link if
/// and only if the namespace matches.
proof fn lemma_links_in_push(s: Seq<RecordModel>, x: RecordModel, namespace: Seq<char>)
    ensures
        links_in(s.push(x), namespace) == links_in(s, namespace) + (if x.namespace == namespace {
            seq![link_of(x)]
        } else {
            Seq::<LinkModel>::empty()
        }),
    decreases s.len(),
{
    let tail = if x.namespace == namespace {
        seq![link_of(x)]
    } else {
        Seq::<LinkModel>::empty()
    };
    if s.len() == 0 {
        reveal_with_fuel(links_in, 3);
        assert(s.push(x) =~= seq![x]);
        assert(seq![x].drop_first() =~= Seq::<RecordModel>::empty());
        assert(links_in(s.push(x), namespace) =~= links_in(s, namespace) + tail);
    } else {
        lemma_links_in_push(s.drop_first(), x, namespace);
        let head = if s[0].namespace == namespace {
            seq![link_of(s[0])]
        } else {
            Seq::<LinkModel>::empty()
        };
        assert(s.push(x).drop_first() =~= s.drop_first().push(x));
        assert(s.push(x)[0] == s[0]);
        assert(links_in(s.push(x), namespace) == head + links_in(s.drop_first().push(x), namespace));
        assert(links_in(s, namespace) == head + links_in(s.drop_first(), namespace));
        assert(head + (links_in(s.drop_first(), namespace) + tail) =~= (head + links_in(
            s.drop_first(),
            namespace,
        )) + tail);
        assert(links_in(s.push(x), namespace) == head + (links_in(s.drop_first(), namespace)
            + tail));
        assert(links_in(s, namespace) + tail == (head + links_in(s.drop_first(), namespace))
            + tail);
        assert(links_in(s.push(x), namespace) == links_in(s, namespace) + tail);
    }
}

/// The same, for a reverse-lookup listing.
proof fn lemma_reverse_matches_push(
    s: Seq<RecordModel>,
    x: RecordModel,
    namespace: Seq<char>,
    long_form: Seq<char>,
)
    ensures
        reverse_matches(s.push(x), namespace, long_form) == reverse_matches(s, namespace, long_form)
            + (if x.namespace == namespace && x.long_form == long_form {
            seq![link_of(x)]
        } else {
            Seq::<LinkModel>::empty()
        }),
    decreases s.len(),
{
    let tail = if x.namespace == namespace && x.long_form == long_form {
        seq![link_of(x)]
    } else {
        Seq::<LinkModel>::empty()
    };
    if s.len() == 0 {
        reveal_with_fuel(reverse_matches, 3);
        assert(s.push(x) =~= seq![x]);
        assert(seq![x].drop_first() =~= Seq::<RecordModel>::empty());
        assert(reverse_matches(s.push(x), namespace, long_form) =~= reverse_matches(
            s,
            namespace,
            long_form,
        ) + tail);
    } else {
        lemma_reverse_matches_push(s.drop_first(), x, namespace, long_form);
        let head = if s[0].namespace == namespace && s[0].long_form == long_form {
            seq![link_of(s[0])]
        } else {
            Seq::<LinkModel>::empty()
        };
        assert(s.push(x).drop_first() =~= s.drop_first().push(x));
        assert(s.push(x)[0] == s[0]);
        assert(reverse_matches(s.push(x), namespace, long_form) == head + reverse_matches(
            s.drop_first().push(x),
            namespace,
            long_form,
        ));
        assert(reverse_matches(s, namespace, long_form) == head + reverse_matches(
            s.drop_first(),
            namespace,
            long_form,
        ));
        assert(head + (reverse_matches(s.drop_first(), namespace, long_form) + tail) =~= (head
            + reverse_matches(s.drop_first(), namespace, long_form)) + tail);
        assert(reverse_matches(s.push(x), namespace, long_form) == head + (reverse_matches(
            s.drop_first(),
            namespace,
            long_form,
        ) + tail));
        assert(reverse_matches(s, namespace, long_form) + tail == (head + reverse_matches(
            s.drop_first(),
            namespace,
            long_form,
        )) + tail);
        assert(reverse_matches(s.push(x), namespace, long_form) == reverse_matches(
            s,
            namespace,
            long_form,
        ) + tail);
    }
}

/// Upsert idempotence: writing the same record twice leaves the same table
/// as writing it once.
pub proof fn lemma_upsert_idempotent(s: Seq<RecordModel>, r: RecordModel)
    ensures
        upserted(upserted(s, r), r) == upserted(s, r),
    decreases s.len(),
{
    if s.len() == 0 {
        assert(upserted(s, r) =~= seq![r]);
        assert(seq![r].drop_first() =~= Seq::<RecordModel>::empty());
        assert(upserted(upserted(s, r), r) =~= upserted(s, r));
    } else if key_matches(s[0], r.namespace, r.short_form) {
        let u = upserted(s, r);
        assert(u == seq![r] + s.drop_first());
        assert(u[0] == r);
        assert(u.drop_first() =~= s.drop_first());
        assert(upserted(u, r) =~= seq![r] + u.drop_first());
        assert(upserted(upserted(s, r), r) =~= upserted(s, r));
    } else {
        let u = upserted(s, r);
        assert(u == seq![s[0]] + upserted(s.drop_first(), r));
        assert(u.len() > 0);
        assert(u[0] == s[0]);
        assert(u.drop_first() =~= upserted(s.drop_first(), r));
        lemma_upsert_idempotent(s.drop_first(), r);
        assert(upserted(u, r) =~= seq![s[0]] + upserted(u.drop_first(), r));
        assert(upserted(upserted(s, r), r) =~= upserted(s, r));
    }
}

/// Key uniqueness of reads after writes: after an upsert of `r`, the key of
/// `r` holds exactly `r`'s fields, and every other key is untouched.  Applied
/// along any sequence of upserts this says `get` returns the fields of the
/// most recent upsert to its key, never an earlier one.
pub proof fn lemma_upsert_lookup(
    s: Seq<RecordModel>,
    r: RecordModel,
    namespace: Seq<char>,
    short_form: Seq<char>,
)
    ensures
        lookup(upserted(s, r), r.namespace, r.short_form) == Some(link_of(r)),
        !key_matches(r, namespace, short_form) ==> lookup(upserted(s, r), namespace, short_form)
            == lookup(s, namespace, short_form),
    decreases s.len(),
{
    if s.len() == 0 {
        assert(upserted(s, r) =~= seq![r]);
        assert(seq![r].drop_first() =~= Seq::<RecordModel>::empty());
    } else if key_matches(s[0], r.namespace, r.short_form) {
        let u = upserted(s, r);
        assert(u == seq![r] + s.drop_first());
        assert(u[0] == r);
        assert(u.drop_first() =~= s.drop_first());
    } else {
        let u = upserted(s, r);
        assert(u == seq![s[0]] + upserted(s.drop_first(), r));
        assert(u[0] == s[0]);
        assert(u.drop_first() =~= upserted(s.drop_first(), r));
        lemma_upsert_lookup(s.drop_first(), r, namespace, short_form);
    }
}

/// The table after a sequence of upserts applied in call order.
pub open spec fn applied(s: Seq<RecordModel>, writes: Seq<RecordModel>) -> Seq<RecordModel>
    decreases writes.len(),
{
    if writes.len() == 0 {
        s
    } else {
        applied(upserted(s, writes[0]), writes.drop_first())
    }
}

/// The most recent write in the sequence to the given key, if any.
pub open spec fn last_write(
    writes: Seq<RecordModel>,
    namespace: Seq<char>,
    short_form: Seq<char>,
) -> Option<RecordModel>
    decreases writes.len(),
{
    if writes.len() == 0 {
        None
    } else {
        let rest = last_write(writes.drop_first(), namespace, short_form);
        if rest is Some {
            rest
        } else if key_matches(writes[0], namespace, short_form) {
            Some(writes[0])
        } else {
            None
        }
    }
}

/// Key uniqueness over whole histories: after any sequence of upserts,
/// `get` at a key returns the fields of the most recent upsert to that key,
/// never an earlier one — and a key never written keeps its prior answer.
pub proof fn lemma_upsert_history(
    s: Seq<RecordModel>,
    writes: Seq<RecordModel>,
    namespace: Seq<char>,
    short_form: Seq<char>,
)
    ensures
        match last_write(writes, namespace, short_form) {
            Some(w) => lookup(applied(s, writes), namespace, short_form) == Some(link_of(w)),
            None => lookup(applied(s, writes), namespace, short_form) == lookup(
                s,
                namespace,
                short_form,
            ),
        },
    decreases writes.len(),
{
    if writes.len() > 0 {
        lemma_upsert_history(upserted(s, writes[0]), writes.drop_first(), namespace, short_form);
        lemma_upsert_lookup(s, writes[0], namespace, short_form);
    }
}

} // verus!

