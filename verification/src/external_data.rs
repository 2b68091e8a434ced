//! References from generated data to an outside, tabular data source.
//!
//! * The resulting data is a JSON object.
//! * An object refers to only one row, unless the source is referred to from an array.
//! * An array can refer to several rows of a source.

use vstd::prelude::*;

use crate::text::same_text;

verus! {

/// A place in generated data that is filled from an outside source.
#[derive(Debug)]
pub enum ExternalData {
    /// The references from the items of an array.
    Array(String, Vec<ExternalData>),
    /// A reference from a member of an object, and how many rows it asks for.
    Object { path: String, count: usize },
}

/// What an [`ExternalData`] is.
pub enum ExternalView {
    Array(Seq<char>, Seq<ExternalView>),
    Object { path: Seq<char>, count: nat },
}

pub open spec fn external_view(e: ExternalData) -> ExternalView
    decreases e,
{
    match e {
        ExternalData::Array(key, items) => ExternalView::Array(
            key@,
            Seq::new(
                items@.len(),
                |i: int|
                    if 0 <= i < items@.len() {
                        external_view(items@[i])
                    } else {
                        ExternalView::Array(Seq::empty(), Seq::empty())
                    },
            ),
        ),
        ExternalData::Object { path, count } => ExternalView::Object {
            path: path@,
            count: count as nat,
        },
    }
}

impl View for ExternalData {
    type V = ExternalView;

    open spec fn view(&self) -> ExternalView {
        external_view(*self)
    }
}

pub open spec fn externals_view(v: Seq<ExternalData>) -> Seq<ExternalView> {
    Seq::new(v.len(), |i: int| external_view(v[i]))
}

pub broadcast proof fn lemma_external_array_view(key: String, items: Vec<ExternalData>)
    ensures
        #[trigger] external_view(ExternalData::Array(key, items)) == ExternalView::Array(
            key@,
            externals_view(items@),
        ),
{
    assert(external_view(ExternalData::Array(key, items))->Array_1 =~= externals_view(items@));
}

/// Whether two references are to the same place. Counts do not matter.
#[verifier::opaque]
pub open spec fn same_external(a: ExternalView, b: ExternalView) -> bool
    decreases a,
{
    match (a, b) {
        (ExternalView::Array(k, x), ExternalView::Array(l, y)) => {
            &&& k == l
            &&& x.len() == y.len()
            &&& forall|i: int| 0 <= i < x.len() ==> same_external(#[trigger] x[i], y[i])
        },
        (
            ExternalView::Object { path: p, count: _ },
            ExternalView::Object { path: q, count: _ },
        ) => p == q,
        _ => false,
    }
}

pub proof fn lemma_same_external_reflexive(a: ExternalView)
    ensures
        same_external(a, a),
    decreases a,
{
    reveal(same_external);
    if let ExternalView::Array(_, x) = a {
        assert forall|i: int| 0 <= i < x.len() implies same_external(#[trigger] x[i], x[i]) by {
            assert(decreases_to!(a => a->Array_1));
            assert(decreases_to!(x => x[i]));
            lemma_same_external_reflexive(x[i]);
        }
    }
}

pub proof fn lemma_same_external_symmetric(a: ExternalView, b: ExternalView)
    requires
        same_external(a, b),
    ensures
        same_external(b, a),
    decreases a,
{
    reveal(same_external);
    if let ExternalView::Array(_, x) = a {
        let y = b->Array_1;
        assert forall|i: int| 0 <= i < y.len() implies same_external(#[trigger] y[i], x[i]) by {
            assert(decreases_to!(a => a->Array_1));
            assert(decreases_to!(x => x[i]));
            assert(same_external(x[i], y[i]));
            lemma_same_external_symmetric(x[i], y[i]);
        }
    }
}

pub proof fn lemma_same_external_transitive(a: ExternalView, b: ExternalView, c: ExternalView)
    requires
        same_external(a, b),
        same_external(b, c),
    ensures
        same_external(a, c),
    decreases a,
{
    reveal(same_external);
    if let ExternalView::Array(_, x) = a {
        let y = b->Array_1;
        let z = c->Array_1;
        assert forall|i: int| 0 <= i < x.len() implies same_external(#[trigger] x[i], z[i]) by {
            assert(decreases_to!(a => a->Array_1));
            assert(decreases_to!(x => x[i]));
            assert(same_external(x[i], y[i]));
            assert(same_external(y[i], z[i]));
            lemma_same_external_transitive(x[i], y[i], z[i]);
        }
    }
}

/// A reference with another count. References from arrays have none of their own.
pub open spec fn with_count(e: ExternalView, count: nat) -> ExternalView {
    match e {
        ExternalView::Object { path, count: _ } => ExternalView::Object { path, count },
        _ => e,
    }
}

proof fn lemma_same_external_with_count(e: ExternalView, count: nat)
    ensures
        same_external(e, with_count(e, count)),
{
    reveal(same_external);
    lemma_same_external_reflexive(e);
}

impl ExternalData {
    pub fn set_object_count(&mut self, new_count: usize)
        ensures
            final(self)@ == with_count(old(self)@, new_count as nat),
    {
        if let ExternalData::Object { path: _, count } = self {
            *count = new_count;
        }
    }

    /// Whether both refer to the same place.
    pub fn same(&self, other: &ExternalData) -> (r: bool)
        ensures
            r == same_external(self@, other@),
        decreases *self,
    {
        reveal(same_external);
        broadcast use lemma_external_array_view;

        match (self, other) {
            (ExternalData::Array(k, x), ExternalData::Array(l, y)) => {
                if !same_text(k.as_str(), l.as_str()) || x.len() != y.len() {
                    return false;
                }
                let mut i: usize = 0;
                while i < x.len()
                    invariant
                        i <= x@.len() == y@.len(),
                        k@ == l@,
                        *self == ExternalData::Array(*k, *x),
                        *other == ExternalData::Array(*l, *y),
                        self@ == ExternalView::Array(k@, externals_view(x@)),
                        other@ == ExternalView::Array(l@, externals_view(y@)),
                        forall|j: int|
                            0 <= j < i ==> same_external(
                                #[trigger] externals_view(x@)[j],
                                externals_view(y@)[j],
                            ),
                    decreases x@.len() - i,
                {
                    assert(decreases_to!(*self => (*self)->Array_1));
                    if !x[i].same(&y[i]) {
                        reveal(same_external);
                        assert(!same_external(
                            externals_view(x@)[i as int],
                            externals_view(y@)[i as int],
                        ));
                        return false;
                    }
                    i += 1;
                }
                true
            },
            (
                ExternalData::Object { path: p, count: _ },
                ExternalData::Object { path: q, count: _ },
            ) => same_text(p.as_str(), q.as_str()),
            _ => false,
        }
    }

    /// A copy.
    fn copied(&self) -> (r: ExternalData)
        ensures
            r@ == self@,
        decreases *self,
    {
        broadcast use lemma_external_array_view;

        match self {
            ExternalData::Array(key, items) => {
                let mut out: Vec<ExternalData> = Vec::new();
                let mut i: usize = 0;
                while i < items.len()
                    invariant
                        i <= items@.len(),
                        out@.len() == i,
                        *self == ExternalData::Array(*key, *items),
                        forall|j: int|
                            0 <= j < i ==> external_view(#[trigger] out@[j]) == external_view(
                                items@[j],
                            ),
                    decreases items@.len() - i,
                {
                    assert(decreases_to!(*self => (*self)->Array_1));
                    let item = items[i].copied();
                    out.push(item);
                    i += 1;
                }
                assert(externals_view(out@) =~= externals_view(items@));
                ExternalData::Array(key.clone(), out)
            },
            ExternalData::Object { path, count } => ExternalData::Object {
                path: path.clone(),
                count: *count,
            },
        }
    }
}

impl Clone for ExternalData {
    fn clone(&self) -> (r: ExternalData)
        ensures
            r@ == self@,
    {
        self.copied()
    }
}

impl PartialEq for ExternalData {
    fn eq(&self, other: &ExternalData) -> (r: bool) {
        self.same(other)
    }
}

impl vstd::std_specs::cmp::PartialEqSpecImpl for ExternalData {
    open spec fn obeys_eq_spec() -> bool {
        true
    }

    open spec fn eq_spec(&self, other: &ExternalData) -> bool {
        same_external(self@, other@)
    }
}

// ---------------------------------------------------------------------------------------------
// Counting references
// ---------------------------------------------------------------------------------------------

/// Counters by number, in a `hashbrown::HashMap`.
#[verifier::external_body]
#[derive(Debug)]
pub struct CountTable {
    inner: hashbrown::HashMap<usize, usize>,
}

/// The counters of a table.
pub uninterp spec fn counters(table: CountTable) -> Map<usize, usize>;

impl CountTable {
    /// `hashbrown::HashMap::new`: a table without counters.
    #[verifier::external_body]
    fn new() -> (r: CountTable)
        ensures
            forall|k: usize| !(#[trigger] counters(r).contains_key(k)),
    {
        CountTable { inner: hashbrown::HashMap::new() }
    }

    /// `hashbrown::HashMap::entry(..).or_insert(..)`: the counter under `key`, put there with
    /// `value` where there was none.
    #[verifier::external_body]
    fn entry_or_insert(&mut self, key: usize, value: usize) -> (r: &mut usize)
        ensures
            *r == (if counters(*old(self)).contains_key(key) {
                counters(*old(self))[key]
            } else {
                value
            }),
            counters(*final(self)) == counters(*old(self)).insert(key, *final(r)),
    {
        self.inner.entry(key).or_insert(value)
    }

    /// `hashbrown::HashMap::is_empty`: whether there is no counter.
    #[verifier::external_body]
    fn is_empty(&self) -> (r: bool)
        ensures
            r == (forall|k: usize| !(#[trigger] counters(*self).contains_key(k))),
    {
        self.inner.is_empty()
    }

    /// `hashbrown::HashMap::drain`: all counters, each once, in no particular order. The table is
    /// empty afterwards.
    #[verifier::external_body]
    fn drain(&mut self) -> (r: Vec<(usize, usize)>)
        ensures
            forall|k: usize| !(#[trigger] counters(*final(self)).contains_key(k)),
            forall|i: int|
                0 <= i < r@.len() ==> counters(*old(self)).contains_key((#[trigger] r@[i]).0)
                    && counters(*old(self))[r@[i].0] == r@[i].1,
            forall|i: int, j: int|
                0 <= i < j < r@.len() ==> (#[trigger] r@[i]).0 != (#[trigger] r@[j]).0,
            forall|k: usize| #[trigger]
                counters(*old(self)).contains_key(k) ==> exists|i: int|
                    0 <= i < r@.len() && (#[trigger] r@[i]).0 == k,
    {
        self.inner.drain().collect()
    }
}

/// One reference that was met, and how many rows it adds.
pub type Mention = (ExternalView, nat);

/// The first mention of the place that `e` refers to, or the number of mentions.
pub open spec fn first_mention(mentions: Seq<Mention>, e: ExternalView) -> int
    decreases mentions.len(),
{
    if mentions.len() == 0 {
        0
    } else {
        let i = first_mention(mentions.drop_last(), e);
        if i < mentions.len() - 1 {
            i
        } else if same_external(mentions.last().0, e) {
            mentions.len() - 1
        } else {
            mentions.len() as int
        }
    }
}

/// How many rows the mentions of the place that `e` refers to add up to.
pub open spec fn rows(mentions: Seq<Mention>, e: ExternalView) -> nat
    decreases mentions.len(),
{
    if mentions.len() == 0 {
        0
    } else {
        let n = rows(mentions.drop_last(), e);
        if same_external(mentions.last().0, e) {
            n + mentions.last().1
        } else {
            n
        }
    }
}

/// `list` holds each place that was mentioned once, in any order: as it was mentioned first, with
/// the rows of all its mentions as its count.
pub open spec fn tally(mentions: Seq<Mention>, list: Seq<ExternalView>) -> bool {
    &&& forall|i: int, j: int|
        0 <= i < j < list.len() ==> !same_external(#[trigger] list[i], #[trigger] list[j])
    &&& forall|m: int|
        0 <= m < mentions.len() ==> exists|i: int|
            0 <= i < list.len() && same_external((#[trigger] mentions[m]).0, #[trigger] list[i])
    &&& forall|i: int|
        0 <= i < list.len() ==> {
            let m = first_mention(mentions, #[trigger] list[i]);
            &&& 0 <= m < mentions.len()
            &&& list[i] == with_count(mentions[m].0, rows(mentions, list[i]))
        }
}

/// Nothing where nothing was mentioned.
pub open spec fn tally_option(mentions: Seq<Mention>, list: Option<Seq<ExternalView>>) -> bool {
    match list {
        None => mentions.len() == 0,
        Some(v) => mentions.len() > 0 && tally(mentions, v),
    }
}

pub open spec fn external_option_view(list: Option<Vec<ExternalData>>) -> Option<
    Seq<ExternalView>,
> {
    match list {
        None => None,
        Some(v) => Some(externals_view(v@)),
    }
}

/// What the first mention of a place is.
pub proof fn lemma_first_mention(mentions: Seq<Mention>, e: ExternalView)
    ensures
        0 <= first_mention(mentions, e) <= mentions.len(),
        first_mention(mentions, e) < mentions.len() ==> same_external(
            mentions[first_mention(mentions, e)].0,
            e,
        ),
        forall|m: int|
            0 <= m < first_mention(mentions, e) ==> !same_external((#[trigger] mentions[m]).0, e),
    decreases mentions.len(),
{
    if mentions.len() > 0 {
        let rest = mentions.drop_last();
        lemma_first_mention(rest, e);
        assert forall|m: int| 0 <= m < first_mention(mentions, e) implies !same_external(
            (#[trigger] mentions[m]).0,
            e,
        ) by {
            if m < rest.len() {
                assert(rest[m] == mentions[m]);
            }
        }
    }
}

/// Two references to the same place are mentioned alike.
proof fn lemma_mentions_alike(mentions: Seq<Mention>, a: ExternalView, b: ExternalView)
    requires
        same_external(a, b),
    ensures
        first_mention(mentions, a) == first_mention(mentions, b),
        rows(mentions, a) == rows(mentions, b),
    decreases mentions.len(),
{
    if mentions.len() > 0 {
        lemma_mentions_alike(mentions.drop_last(), a, b);
        let last = mentions.last().0;
        if same_external(last, a) {
            lemma_same_external_transitive(last, a, b);
        }
        if same_external(last, b) {
            lemma_same_external_symmetric(a, b);
            lemma_same_external_transitive(last, b, a);
        }
    }
}

/// The slots are distinct places, each the first mention of its place; the counter of a slot holds
/// the rows of its place.
spec fn tally_state(
    slots: Seq<ExternalView>,
    counts: Map<usize, usize>,
    mentions: Seq<Mention>,
) -> bool {
    &&& forall|i: int, j: int|
        0 <= i < j < slots.len() ==> !same_external(#[trigger] slots[i], #[trigger] slots[j])
    &&& forall|m: int| 0 <= m < mentions.len() ==> covered(slots, (#[trigger] mentions[m]).0)
    &&& forall|k: usize| #[trigger] counts.contains_key(k) <==> k < slots.len()
    &&& forall|i: int| 0 <= i < slots.len() ==> slot_state(#[trigger] slots[i], counts, mentions, i)
}

/// Some slot is the place that `e` refers to.
#[verifier::opaque]
spec fn covered(slots: Seq<ExternalView>, e: ExternalView) -> bool {
    exists|i: int| 0 <= i < slots.len() && same_external(e, #[trigger] slots[i])
}

spec fn slot_state(
    slot: ExternalView,
    counts: Map<usize, usize>,
    mentions: Seq<Mention>,
    i: int,
) -> bool {
    let m = first_mention(mentions, slot);
    &&& 0 <= m < mentions.len()
    &&& mentions[m].0 == slot
    &&& counts[i as usize] == rows(mentions, slot)
}

/// One more mention of a place that has a slot.
proof fn lemma_mention_known(
    slots: Seq<ExternalView>,
    counts: Map<usize, usize>,
    mentions: Seq<Mention>,
    at: usize,
    e: ExternalView,
    more: nat,
    count: usize,
)
    requires
        tally_state(slots, counts, mentions),
        at < slots.len() <= usize::MAX,
        same_external(slots[at as int], e),
        count == counts[at] + more,
    ensures
        tally_state(slots, counts.insert(at, count), mentions.push((e, more))),
{
    let after = mentions.push((e, more));
    let target = slots[at as int];
    assert(after.drop_last() =~= mentions);
    assert(after.last() == (e, more));
    lemma_same_external_symmetric(target, e);
    assert forall|i: int| 0 <= i < slots.len() implies slot_state(
        #[trigger] slots[i],
        counts.insert(at, count),
        after,
        i,
    ) by {
        assert(slot_state(slots[i], counts, mentions, i));
        if i != at {
            if same_external(e, slots[i]) {
                lemma_same_external_transitive(target, e, slots[i]);
                lemma_same_external_symmetric(target, slots[i]);
                if i < at {
                    assert(!same_external(slots[i], slots[at as int]));
                } else {
                    assert(!same_external(slots[at as int], slots[i]));
                }
            }
            assert(i as usize != at);
        }
    }
    assert forall|m: int| 0 <= m < after.len() implies covered(slots, (#[trigger] after[m]).0) by {
        if m < mentions.len() {
            assert(after[m] == mentions[m]);
        } else {
            reveal(covered);
            assert(same_external(after[m].0, slots[at as int]));
        }
    }
}

/// The first mention of a place.
proof fn lemma_mention_new(
    slots: Seq<ExternalView>,
    counts: Map<usize, usize>,
    mentions: Seq<Mention>,
    at: usize,
    e: ExternalView,
    more: nat,
    count: usize,
)
    requires
        tally_state(slots, counts, mentions),
        at == slots.len(),
        slots.len() < usize::MAX,
        forall|i: int| 0 <= i < slots.len() ==> !same_external(#[trigger] slots[i], e),
        count == more,
    ensures
        tally_state(slots.push(e), counts.insert(at, count), mentions.push((e, more))),
{
    let after = mentions.push((e, more));
    let grown = slots.push(e);
    assert(after.drop_last() =~= mentions);
    assert(after.last() == (e, more));
    lemma_same_external_reflexive(e);
    lemma_first_mention(mentions, e);
    assert(first_mention(mentions, e) == mentions.len()) by {
        let m = first_mention(mentions, e);
        if m < mentions.len() {
            reveal(covered);
            assert(covered(slots, mentions[m].0));
            let i = choose|i: int|
                0 <= i < slots.len() && same_external(mentions[m].0, #[trigger] slots[i]);
            lemma_same_external_symmetric(mentions[m].0, slots[i]);
            lemma_same_external_transitive(slots[i], mentions[m].0, e);
        }
    }
    lemma_rows_unmentioned(mentions, e);
    assert forall|i: int| 0 <= i < grown.len() implies slot_state(
        #[trigger] grown[i],
        counts.insert(at, count),
        after,
        i,
    ) by {
        if i < slots.len() {
            assert(grown[i] == slots[i]);
            assert(slot_state(slots[i], counts, mentions, i));
            if same_external(e, slots[i]) {
                lemma_same_external_symmetric(e, slots[i]);
            }
            assert(i as usize != at);
        }
    }
    assert forall|i: int, j: int| 0 <= i < j < grown.len() implies !same_external(
        #[trigger] grown[i],
        #[trigger] grown[j],
    ) by {
        assert(grown[i] == slots[i]);
        if j < slots.len() {
            assert(grown[j] == slots[j]);
        }
    }
    assert forall|m: int| 0 <= m < after.len() implies covered(grown, (#[trigger] after[m]).0) by {
        reveal(covered);
        if m < mentions.len() {
            assert(after[m] == mentions[m]);
            assert(covered(slots, mentions[m].0));
            let i = choose|i: int|
                0 <= i < slots.len() && same_external(mentions[m].0, #[trigger] slots[i]);
            assert(grown[i] == slots[i]);
        } else {
            assert(same_external(after[m].0, grown[slots.len() as int]));
        }
    }
}

/// The references that were met so far, each place once.
pub struct ExternalTally {
    slots: Vec<ExternalData>,
    table: CountTable,
    mentions: Ghost<Seq<Mention>>,
}

impl ExternalTally {
    /// All that was added, in order.
    pub closed spec fn mentions(&self) -> Seq<Mention> {
        self.mentions@
    }

    /// The slots and counters stand for all that was added.
    pub closed spec fn wf(&self) -> bool {
        tally_state(externals_view(self.slots@), counters(self.table), self.mentions@)
    }

    pub fn new() -> (r: ExternalTally)
        ensures
            r.wf(),
            r.mentions() == Seq::<Mention>::empty(),
    {
        ExternalTally {
            slots: Vec::new(),
            table: CountTable::new(),
            mentions: Ghost(Seq::empty()),
        }
    }

    pub fn is_empty(&self) -> (r: bool)
        requires
            self.wf(),
        ensures
            r == (self.mentions().len() == 0),
    {
        let r = self.table.is_empty();
        proof {
            let slots = externals_view(self.slots@);
            if self.mentions@.len() > 0 {
                reveal(covered);
                assert(covered(slots, self.mentions@[0].0));
                assert(slots.len() > 0);
                assert(counters(self.table).contains_key(0));
            } else if slots.len() > 0 {
                assert(slot_state(slots[0], counters(self.table), self.mentions@, 0));
            }
        }
        r
    }

    /// Adds a mention.
    pub fn mention(&mut self, e: ExternalData, more: usize)
        requires
            old(self).wf(),
            rows(old(self).mentions(), e@) + more <= usize::MAX,
        ensures
            final(self).wf(),
            final(self).mentions() == old(self).mentions().push((e@, more as nat)),
    {
        let ghost slots = externals_view(self.slots@);
        let ghost counts = counters(self.table);
        let ghost mentions = self.mentions@;
        let mut at: usize = 0;
        while at < self.slots.len()
            invariant
                at <= self.slots@.len(),
                *self == *old(self),
                slots == externals_view(self.slots@),
                forall|j: int| 0 <= j < at ==> !same_external(#[trigger] slots[j], e@),
            ensures
                at < self.slots@.len() ==> same_external(slots[at as int], e@),
            decreases self.slots@.len() - at,
        {
            if self.slots[at].same(&e) {
                break;
            }
            at += 1;
        }
        let ghost view = e@;
        if at < self.slots.len() {
            proof {
                assert(slot_state(slots[at as int], counts, mentions, at as int));
                lemma_mentions_alike(mentions, slots[at as int], view);
            }
            let count = self.table.entry_or_insert(at, 0);
            *count = *count + more;
            self.mentions = Ghost(mentions.push((view, more as nat)));
            proof {
                let n = counters(self.table)[at];
                lemma_mention_known(slots, counts, mentions, at, view, more as nat, n);
            }
        } else {
            self.slots.push(e);
            assert(self.slots.len() <= usize::MAX);
            let count = self.table.entry_or_insert(at, 0);
            *count = *count + more;
            self.mentions = Ghost(mentions.push((view, more as nat)));
            proof {
                let n = counters(self.table)[at];
                lemma_mention_new(slots, counts, mentions, at, view, more as nat, n);
                assert(externals_view(self.slots@) =~= slots.push(view));
            }
        }
    }

    /// Every place once, with its count; nothing where nothing was mentioned.
    pub fn into_list(self) -> (r: Option<Vec<ExternalData>>)
        requires
            self.wf(),
        ensures
            tally_option(self.mentions(), external_option_view(r)),
    {
        if self.is_empty() {
            return None;
        }
        let ghost mentions = self.mentions@;
        let ghost slots = externals_view(self.slots@);
        let ghost counts = counters(self.table);
        let mut table = self.table;
        let drained = table.drain();
        let mut list: Vec<ExternalData> = Vec::new();
        let mut i: usize = 0;
        while i < drained.len()
            invariant
                i <= drained@.len(),
                list@.len() == i,
                slots == externals_view(self.slots@),
                tally_state(slots, counts, mentions),
                forall|j: int|
                    0 <= j < drained@.len() ==> counts.contains_key((#[trigger] drained@[j]).0)
                        && counts[drained@[j].0] == drained@[j].1,
                forall|j: int|
                    0 <= j < i ==> external_view(#[trigger] list@[j]) == with_count(
                        slots[drained@[j].0 as int],
                        drained@[j].1 as nat,
                    ),
            decreases drained@.len() - i,
        {
            let (slot, count) = drained[i];
            assert(counts.contains_key(drained@[i as int].0));
            let mut e = self.slots[slot].clone();
            e.set_object_count(count);
            list.push(e);
            i += 1;
        }
        let n: usize = self.slots.len();
        proof {
            assert(n == slots.len());
            lemma_drained(slots, counts, mentions, drained@, externals_view(list@));
        }
        Some(list)
    }
}

/// The slots with their counters, each once, are the tally of the mentions.
proof fn lemma_drained(
    slots: Seq<ExternalView>,
    counts: Map<usize, usize>,
    mentions: Seq<Mention>,
    drained: Seq<(usize, usize)>,
    list: Seq<ExternalView>,
)
    requires
        tally_state(slots, counts, mentions),
        list.len() == drained.len(),
        slots.len() <= usize::MAX,
        forall|i: int|
            0 <= i < drained.len() ==> counts.contains_key((#[trigger] drained[i]).0)
                && counts[drained[i].0] == drained[i].1,
        forall|i: int, j: int|
            0 <= i < j < drained.len() ==> (#[trigger] drained[i]).0 != (#[trigger] drained[j]).0,
        forall|k: usize| #[trigger]
            counts.contains_key(k) ==> exists|i: int|
                0 <= i < drained.len() && (#[trigger] drained[i]).0 == k,
        forall|j: int|
            0 <= j < list.len() ==> (#[trigger] list[j]) == with_count(
                slots[drained[j].0 as int],
                drained[j].1 as nat,
            ),
    ensures
        tally(mentions, list),
{
    assert forall|j: int| 0 <= j < list.len() implies same_external(
        slots[drained[j].0 as int],
        #[trigger] list[j],
    ) && slot_state(slots[drained[j].0 as int], counts, mentions, drained[j].0 as int) by {
        assert(counts.contains_key(drained[j].0));
        lemma_same_external_with_count(slots[drained[j].0 as int], drained[j].1 as nat);
    }
    assert forall|a: int, b: int| 0 <= a < b < list.len() implies !same_external(
        #[trigger] list[a],
        #[trigger] list[b],
    ) by {
        let p = drained[a].0 as int;
        let q = drained[b].0 as int;
        assert(drained[a].0 != drained[b].0);
        assert(counts.contains_key(drained[a].0) && counts.contains_key(drained[b].0));
        if same_external(list[a], list[b]) {
            lemma_same_external_transitive(slots[p], list[a], list[b]);
            lemma_same_external_symmetric(slots[q], list[b]);
            lemma_same_external_transitive(slots[p], list[b], slots[q]);
            lemma_same_external_symmetric(slots[p], slots[q]);
            if p < q {
                assert(!same_external(slots[p], slots[q]));
            } else {
                assert(!same_external(slots[q], slots[p]));
            }
        }
    }
    assert forall|m: int| 0 <= m < mentions.len() implies exists|k: int|
        0 <= k < list.len() && same_external((#[trigger] mentions[m]).0, #[trigger] list[k]) by {
        reveal(covered);
        assert(covered(slots, mentions[m].0));
        let s = choose|s: int|
            0 <= s < slots.len() && same_external(mentions[m].0, #[trigger] slots[s]);
        assert(counts.contains_key(s as usize));
        let k = choose|k: int| 0 <= k < drained.len() && (#[trigger] drained[k]).0 == s as usize;
        assert(same_external(slots[drained[k].0 as int], list[k]));
        lemma_same_external_transitive(mentions[m].0, slots[s], list[k]);
    }
    assert forall|k: int| 0 <= k < list.len() implies {
        let m = first_mention(mentions, #[trigger] list[k]);
        &&& 0 <= m < mentions.len()
        &&& list[k] == with_count(mentions[m].0, rows(mentions, list[k]))
    } by {
        let slot = slots[drained[k].0 as int];
        assert(same_external(slot, list[k]));
        lemma_mentions_alike(mentions, slot, list[k]);
    }
}

proof fn lemma_rows_unmentioned(mentions: Seq<Mention>, e: ExternalView)
    requires
        first_mention(mentions, e) == mentions.len(),
    ensures
        rows(mentions, e) == 0,
    decreases mentions.len(),
{
    if mentions.len() > 0 {
        lemma_first_mention(mentions, e);
        lemma_first_mention(mentions.drop_last(), e);
        assert(!same_external(mentions[mentions.len() - 1].0, e));
        lemma_rows_unmentioned(mentions.drop_last(), e);
    }
}

} // verus!
