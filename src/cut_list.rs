use vstd::prelude::*;

use std::collections::HashMap;

use crate::lumber::Lumber;
use crate::numerical::{decimal_value, nat_text, push_nat_text, FractionalValue};
use crate::LumberError;

verus! {

/// The blade width, in millionths of an inch, when none is configured: 1/8".
pub const DEFAULT_BLADE_WIDTH_MILLIONTHS: u64 = 125_000;

/// The settings key that holds the blade width in inches.
pub const BLADE_WIDTH_KEY: &'static str = "blade_width_inches";

/// Relies on `HashMap::get` with `String` keys, which hash and compare by
/// their characters: it finds the value stored under the key with the same
/// characters as `key`, and finds none where no key has them.
#[verifier::external_body]
fn lookup_setting<'a>(map: &'a HashMap<String, String>, key: &str) -> (r: Option<&'a String>)
    ensures
        r matches Some(v) ==> forall|k: String| #[trigger] map@.contains_key(k) && k@ == key@
            ==> map@[k] == *v,
        r matches Some(v) ==> exists|k: String| #[trigger] map@.contains_key(k) && k@ == key@,
        r is None ==> forall|k: String| #[trigger] map@.contains_key(k) ==> k@ != key@,
{
    map.get(key)
}

/// Cutting settings: the width of the saw blade.
#[derive(Clone, Copy, Debug)]
pub struct Settings {
    blade_width_inches: FractionalValue,
}

impl View for Settings {
    /// The blade width, in millionths of an inch.
    type V = int;

    closed spec fn view(&self) -> int {
        self.blade_width_inches@
    }
}

/// The blade width, in millionths of an inch, that a configured text gives:
/// the default where none is given, the text read as a decimal number where
/// one is; text that is no number is refused.
pub open spec fn spec_blade_width(text: Option<Seq<char>>) -> Result<int, LumberError> {
    match text {
        None => Ok(DEFAULT_BLADE_WIDTH_MILLIONTHS as int),
        Some(t) => match decimal_value(t) {
            Some(v) => Ok(v),
            None => Err(LumberError::Parse),
        },
    }
}

pub open spec fn settings_result(r: Result<Settings, LumberError>) -> Result<int, LumberError> {
    match r {
        Ok(s) => Ok(s@),
        Err(e) => Err(e),
    }
}

impl Settings {
    /// Settings with the default blade width.
    pub fn new() -> (r: Settings)
        ensures
            r@ == DEFAULT_BLADE_WIDTH_MILLIONTHS,
    {
        Settings { blade_width_inches: FractionalValue::from_millionths(DEFAULT_BLADE_WIDTH_MILLIONTHS) }
    }

    /// Settings from the configured blade width text, if any (see
    /// `spec_blade_width`).
    pub fn new_from_blade_width_text(text: Option<&str>) -> (r: Result<Settings, LumberError>)
        ensures
            settings_result(r) == spec_blade_width(
                match text {
                    Some(t) => Some(t@),
                    None => None,
                },
            ),
    {
        match text {
            None => Ok(Settings::new()),
            Some(t) => match FractionalValue::parse(t) {
                Some(v) => Ok(Settings { blade_width_inches: v }),
                None => Err(LumberError::Parse),
            },
        }
    }

    /// Settings from a mapping of setting names to texts, of which the text
    /// under `blade_width_inches` is read (see `spec_blade_width`).
    pub fn new_from_hashmap(hashmap: HashMap<String, String>) -> (r: Result<Settings, LumberError>)
        ensures
            forall|k: String| #[trigger] hashmap@.contains_key(k) && k@ == BLADE_WIDTH_KEY@
                ==> settings_result(r) == spec_blade_width(Some(hashmap@[k]@)),
            (forall|k: String| #[trigger] hashmap@.contains_key(k) ==> k@ != BLADE_WIDTH_KEY@)
                ==> settings_result(r) == spec_blade_width(None),
    {
        match lookup_setting(&hashmap, BLADE_WIDTH_KEY) {
            None => Settings::new_from_blade_width_text(None),
            Some(text) => Settings::new_from_blade_width_text(Some(text.as_str())),
        }
    }

    pub fn get_blade_width_inches(self) -> (r: FractionalValue)
        ensures
            r@ == self@,
    {
        self.blade_width_inches
    }
}

/// Entries of a cut list: a board identity with its count.
pub type Entries = Seq<(Seq<char>, int)>;

/// The sum of the counts.
pub open spec fn total(s: Entries) -> int
    decreases s.len(),
{
    if s.len() == 0 {
        0
    } else {
        total(s.drop_last()) + s.last().1
    }
}

/// No identity appears in two entries.
pub open spec fn keys_unique(s: Entries) -> bool {
    forall|i: int, j: int| 0 <= i < s.len() && 0 <= j < s.len() && (#[trigger] s[i]).0 == (#[trigger] s[j]).0 ==> i == j
}

pub open spec fn contains_id(s: Entries, id: Seq<char>) -> bool {
    exists|i: int| 0 <= i < s.len() && (#[trigger] s[i]).0 == id
}

/// How many boards of the identity the entries count.
pub open spec fn count_of(s: Entries, id: Seq<char>) -> int {
    if contains_id(s, id) {
        s[choose|i: int| 0 <= i < s.len() && (#[trigger] s[i]).0 == id].1
    } else {
        0
    }
}

/// One more board of the identity: its count goes up by one, or it is
/// appended with count one.
pub open spec fn spec_add(s: Entries, id: Seq<char>) -> Entries {
    if contains_id(s, id) {
        let i = choose|i: int| 0 <= i < s.len() && (#[trigger] s[i]).0 == id;
        s.update(i, (id, s[i].1 + 1))
    } else {
        s.push((id, 1))
    }
}

/// The line of the report for one entry: `{identity} ({count})`.
pub open spec fn report_line(e: (Seq<char>, int)) -> Seq<char> {
    e.0 + seq![' ', '('] + nat_text(e.1 as nat) + seq![')', '\n']
}

pub open spec fn report_lines(s: Entries) -> Seq<char>
    decreases s.len(),
{
    if s.len() == 0 {
        Seq::empty()
    } else {
        report_lines(s.drop_last()) + report_line(s.last())
    }
}

/// The purchase report: a header, then one line per entry.
pub open spec fn report_text(s: Entries) -> Seq<char> {
    "Purchase List\n--------\n"@ + report_lines(s)
}

proof fn lemma_total_nonneg(s: Entries)
    requires
        forall|i: int| 0 <= i < s.len() ==> (#[trigger] s[i]).1 >= 0,
    ensures
        total(s) >= 0,
    decreases s.len(),
{
    if s.len() > 0 {
        lemma_total_nonneg(s.drop_last());
    }
}

proof fn lemma_total_update(s: Entries, i: int, e: (Seq<char>, int))
    requires
        0 <= i < s.len(),
    ensures
        total(s.update(i, e)) == total(s) - s[i].1 + e.1,
    decreases s.len(),
{
    if i == s.len() - 1 {
        assert(s.update(i, e).drop_last() =~= s.drop_last());
    } else {
        assert(s.update(i, e).drop_last() =~= s.drop_last().update(i, e));
        lemma_total_update(s.drop_last(), i, e);
    }
}

proof fn lemma_total_prefix(s: Entries, i: int)
    requires
        0 <= i <= s.len(),
        forall|k: int| 0 <= k < s.len() ==> (#[trigger] s[k]).1 >= 0,
    ensures
        total(s.take(i)) <= total(s),
    decreases s.len() - i,
{
    if i < s.len() {
        lemma_total_prefix(s, i + 1);
        assert(s.take(i + 1).drop_last() =~= s.take(i));
    } else {
        assert(s.take(i) =~= s);
    }
}

proof fn lemma_count_of(s: Entries, i: int)
    requires
        keys_unique(s),
        0 <= i < s.len(),
    ensures
        count_of(s, s[i].0) == s[i].1,
{
    assert(contains_id(s, s[i].0));
}

/// Adding the same board twice to a cut list counts it twice, keeps a single
/// entry for it, and adds two to the total.
pub proof fn lemma_add_twice(s: Entries, id: Seq<char>)
    requires
        keys_unique(s),
    ensures
        count_of(spec_add(spec_add(s, id), id), id) == count_of(s, id) + 2,
        spec_add(spec_add(s, id), id).len() == s.len() + if contains_id(s, id) { 0int } else { 1int },
        total(spec_add(spec_add(s, id), id)) == total(s) + 2,
        keys_unique(spec_add(spec_add(s, id), id)),
{
    lemma_add(s, id);
    lemma_add(spec_add(s, id), id);
}

/// Adding a board adds one to its count and to the total, and keeps the
/// identities unique.
pub proof fn lemma_add(s: Entries, id: Seq<char>)
    requires
        keys_unique(s),
    ensures
        count_of(spec_add(s, id), id) == count_of(s, id) + 1,
        contains_id(spec_add(s, id), id),
        spec_add(s, id).len() == s.len() + if contains_id(s, id) { 0int } else { 1int },
        total(spec_add(s, id)) == total(s) + 1,
        keys_unique(spec_add(s, id)),
        forall|other: Seq<char>| other != id ==> #[trigger] count_of(spec_add(s, id), other)
            == count_of(s, other),
        forall|other: Seq<char>| #[trigger] contains_id(spec_add(s, id), other) <==> (contains_id(
            s,
            other,
        ) || other == id),
{
    let t = spec_add(s, id);
    if contains_id(s, id) {
        let i = choose|i: int| 0 <= i < s.len() && (#[trigger] s[i]).0 == id;
        lemma_total_update(s, i, (id, s[i].1 + 1));
        lemma_count_of(s, i);
        assert(t[i].0 == id);
        lemma_count_of(t, i);
        assert forall|other: Seq<char>| #[trigger] contains_id(t, other) <==> (contains_id(s, other)
            || other == id) by {
            if contains_id(t, other) {
                let j = choose|j: int| 0 <= j < t.len() && (#[trigger] t[j]).0 == other;
                if j != i {
                    assert(s[j].0 == other);
                }
            }
            if contains_id(s, other) {
                let j = choose|j: int| 0 <= j < s.len() && (#[trigger] s[j]).0 == other;
                assert(t[j].0 == other);
            }
        }
        assert forall|other: Seq<char>| other != id implies #[trigger] count_of(t, other)
            == count_of(s, other) by {
            if contains_id(s, other) {
                let j = choose|j: int| 0 <= j < s.len() && (#[trigger] s[j]).0 == other;
                assert(j != i);
                assert(t[j] == s[j]);
                lemma_count_of(s, j);
                lemma_count_of(t, j);
            }
        }
    } else {
        assert(t.drop_last() =~= s);
        assert(t[s.len() as int].0 == id);
        lemma_count_of(t, s.len() as int);
        assert forall|other: Seq<char>| #[trigger] contains_id(t, other) <==> (contains_id(s, other)
            || other == id) by {
            if contains_id(t, other) {
                let j = choose|j: int| 0 <= j < t.len() && (#[trigger] t[j]).0 == other;
                if j < s.len() {
                    assert(s[j].0 == other);
                }
            }
            if contains_id(s, other) {
                let j = choose|j: int| 0 <= j < s.len() && (#[trigger] s[j]).0 == other;
                assert(t[j].0 == other);
            }
        }
        assert forall|other: Seq<char>| other != id implies #[trigger] count_of(t, other)
            == count_of(s, other) by {
            if contains_id(s, other) {
                let j = choose|j: int| 0 <= j < s.len() && (#[trigger] s[j]).0 == other;
                assert(t[j] == s[j]);
                lemma_count_of(s, j);
                lemma_count_of(t, j);
            }
        }
    }
}

/// The boards wanted, each distinct identity once with its count.
pub struct CutList {
    settings: Settings,
    required_boards: Vec<(Lumber, i32)>,
}

impl View for CutList {
    type V = Entries;

    closed spec fn view(&self) -> Entries {
        self.required_boards@.map_values(|e: (Lumber, i32)| (e.0@.identifier(), e.1 as int))
    }
}

impl CutList {
    /// Identities are unique, each count is at least one, and the total
    /// fits an `i32`.
    pub open spec fn wf(&self) -> bool {
        &&& keys_unique(self@)
        &&& forall|i: int| 0 <= i < self@.len() ==> (#[trigger] self@[i]).1 >= 1
        &&& total(self@) <= i32::MAX
    }

    pub closed spec fn settings(&self) -> Settings {
        self.settings
    }

    /// An empty cut list with the default settings.
    pub fn new() -> (r: CutList)
        ensures
            r.wf(),
            r@ == Seq::<(Seq<char>, int)>::empty(),
            r.settings()@ == DEFAULT_BLADE_WIDTH_MILLIONTHS,
    {
        CutList::new_with_settings(Settings::new())
    }

    /// An empty cut list with the given settings.
    pub fn new_with_settings(settings: Settings) -> (r: CutList)
        ensures
            r.wf(),
            r@ == Seq::<(Seq<char>, int)>::empty(),
            r.settings() == settings,
    {
        let r = CutList { settings, required_boards: Vec::new() };
        assert(r@ =~= Seq::<(Seq<char>, int)>::empty());
        r
    }

    pub fn get_settings(&self) -> (r: Settings)
        ensures
            r == self.settings(),
    {
        self.settings
    }

    /// Counts one more board: one more of its identity where the list has it,
    /// else a new entry with count one.
    pub fn add(&mut self, lumber: Lumber)
        requires
            old(self).wf(),
            total(old(self)@) < i32::MAX,
        ensures
            final(self).wf(),
            final(self)@ == spec_add(old(self)@, lumber@.identifier()),
            count_of(final(self)@, lumber@.identifier()) == count_of(old(self)@, lumber@.identifier()) + 1,
            total(final(self)@) == total(old(self)@) + 1,
            forall|other: Seq<char>| other != lumber@.identifier() ==> #[trigger] count_of(
                final(self)@,
                other,
            ) == count_of(old(self)@, other),
            forall|other: Seq<char>| #[trigger] contains_id(final(self)@, other) <==> (contains_id(
                old(self)@,
                other,
            ) || other == lumber@.identifier()),
            final(self).settings() == old(self).settings(),
    {
        let ghost s = self@;
        let ghost id = lumber@.identifier();
        proof {
            lemma_add(s, id);
        }
        let key = lumber.get_identifier_string();
        let mut i: usize = 0;
        while i < self.required_boards.len()
            invariant
                i <= self.required_boards@.len(),
                self@ == s,
                s == old(self)@,
                self.required_boards@ == old(self).required_boards@,
                self.settings == old(self).settings,
                keys_unique(s),
                forall|k: int| 0 <= k < s.len() ==> (#[trigger] s[k]).1 >= 1,
                total(s) < i32::MAX,
                id == lumber@.identifier(),
                key@ == id,
                forall|k: int| 0 <= k < i ==> (#[trigger] s[k]).0 != id,
            decreases self.required_boards@.len() - i,
        {
            let entry = self.required_boards[i];
            if entry.0.get_identifier_string() == key {
                proof {
                    assert(s[i as int].0 == id);
                    let j = choose|j: int| 0 <= j < s.len() && (#[trigger] s[j]).0 == id;
                    assert(s[j].0 == s[i as int].0);
                    lemma_total_update(s, i as int, (id, 0));
                    assert forall|k: int| 0 <= k < s.len() implies (#[trigger] s.update(i as int, (id, 0))[k]).1 >= 0 by {
                        if k != i {
                            assert(s.update(i as int, (id, 0))[k] == s[k]);
                        }
                    }
                    lemma_total_nonneg(s.update(i as int, (id, 0)));
                    assert(entry.1 == s[i as int].1);
                }
                self.required_boards.set(i, (entry.0, entry.1 + 1));
                proof {
                    assert(self@ =~= spec_add(s, id));
                    lemma_add(s, id);
                    assert forall|k: int| 0 <= k < self@.len() implies (#[trigger] self@[k]).1 >= 1 by {
                        if k != i {
                            assert(self@[k] == s[k]);
                        }
                    }
                }
                return;
            }
            i += 1;
        }
        proof {
            assert(!contains_id(s, id));
        }
        self.required_boards.push((lumber, 1));
        proof {
            assert(self@ =~= spec_add(s, id));
            lemma_add(s, id);
            assert forall|k: int| 0 <= k < self@.len() implies (#[trigger] self@[k]).1 >= 1 by {
                if k < s.len() {
                    assert(self@[k] == s[k]);
                }
            }
        }
    }

    /// How many boards of the given board's identity the list counts.
    pub fn get_count(&self, lumber: &Lumber) -> (r: i32)
        requires
            self.wf(),
        ensures
            r == count_of(self@, lumber@.identifier()),
    {
        let key = lumber.get_identifier_string();
        let mut i: usize = 0;
        while i < self.required_boards.len()
            invariant
                self.wf(),
                i <= self.required_boards@.len(),
                key@ == lumber@.identifier(),
                forall|k: int| 0 <= k < i ==> (#[trigger] self@[k]).0 != key@,
            decreases self.required_boards@.len() - i,
        {
            if self.required_boards[i].0.get_identifier_string() == key {
                proof {
                    lemma_count_of(self@, i as int);
                }
                return self.required_boards[i].1;
            }
            i += 1;
        }
        0
    }

    /// How many distinct identities the list holds.
    pub fn num_entries(&self) -> (r: usize)
        ensures
            r == self@.len(),
    {
        self.required_boards.len()
    }

    /// All boards counted, whatever their size.
    pub fn get_num_boards(&self) -> (r: i32)
        requires
            self.wf(),
        ensures
            r == total(self@),
    {
        let ghost s = self@;
        proof {
            lemma_total_prefix(s, s.len() as int);
        }
        let mut sum: i32 = 0;
        let mut i: usize = 0;
        while i < self.required_boards.len()
            invariant
                self.wf(),
                s == self@,
                i <= s.len(),
                sum == total(s.take(i as int)),
            decreases s.len() - i,
        {
            proof {
                assert(s.take(i + 1).drop_last() =~= s.take(i as int));
                lemma_total_prefix(s, i + 1);
            }
            sum = sum + self.required_boards[i].1;
            i += 1;
        }
        proof {
            assert(s.take(s.len() as int) =~= s);
        }
        sum
    }

    /// The purchase report (see `report_text`), entries in the order in
    /// which their first board was added.
    pub fn to_report_string(&self) -> (r: String)
        requires
            self.wf(),
        ensures
            r@ == report_text(self@),
    {
        let ghost s = self@;
        proof {
            reveal_strlit("Purchase List\n--------\n");
        }
        let mut r = String::from_str("Purchase List\n--------\n");
        let mut i: usize = 0;
        while i < self.required_boards.len()
            invariant
                self.wf(),
                s == self@,
                i <= s.len(),
                r@ == "Purchase List\n--------\n"@ + report_lines(s.take(i as int)),
            decreases s.len() - i,
        {
            let entry = self.required_boards[i];
            let id = entry.0.get_identifier_string();
            r.append(id.as_str());
            r.append(" (");
            push_nat_text(entry.1 as u64, &mut r);
            r.append(")\n");
            proof {
                reveal_strlit(" (");
                reveal_strlit(")\n");
                assert(s[i as int] == (id@, entry.1 as int));
                assert(s.take(i + 1).drop_last() =~= s.take(i as int));
                assert(s.take(i + 1).last() == s[i as int]);
                assert(s[i as int].1 >= 1);
                assert(r@ =~= "Purchase List\n--------\n"@ + report_lines(s.take(i + 1)));
            }
            i += 1;
        }
        proof {
            assert(s.take(s.len() as int) =~= s);
        }
        r
    }
}

} // verus!
