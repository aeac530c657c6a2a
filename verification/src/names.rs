//! Name-to-statement mappings. A snapshot category (variables, functions or
//! aliases) is a set of records, each a name with the exact re-declaration
//! statement that recreates it. Records are kept sorted strictly by name, so
//! the stored order is canonical and diff output is reproducible.

use vstd::prelude::*;

use crate::text::{lemma_lex_total, lex_lt, str_eq, str_lt};

verus! {

/// A name with the exact shell statement that recreates it. The statement
/// always ends with a newline.
pub struct NameRecord {
    pub name: String,
    pub text: String,
}

/// Ghost image of a record.
pub struct RecordV {
    pub name: Seq<char>,
    pub text: Seq<char>,
}

impl View for NameRecord {
    type V = RecordV;

    open spec fn view(&self) -> RecordV {
        RecordV { name: self.name@, text: self.text@ }
    }
}

/// The ghost images of a record sequence.
pub open spec fn recs(v: Seq<NameRecord>) -> Seq<RecordV> {
    v.map_values(|r: NameRecord| r@)
}

/// The mapping a record sequence denotes; a later record wins over an
/// earlier one of the same name.
pub open spec fn recs_map(s: Seq<RecordV>) -> Map<Seq<char>, Seq<char>>
    decreases s.len(),
{
    if s.len() == 0 {
        Map::<Seq<char>, Seq<char>>::empty()
    } else {
        recs_map(s.drop_last()).insert(s.last().name, s.last().text)
    }
}

/// The names of a record sequence, in stored order.
pub open spec fn rec_names(s: Seq<RecordV>) -> Seq<Seq<char>> {
    s.map_values(|r: RecordV| r.name)
}

/// Well-formed records: sorted strictly by name (hence names are unique) and
/// every statement newline-terminated.
pub open spec fn wf_recs(s: Seq<RecordV>) -> bool {
    &&& forall|i: int, j: int| 0 <= i < j < s.len() ==> lex_lt(#[trigger] s[i].name, #[trigger] s[j].name)
    &&& forall|i: int| 0 <= i < s.len() ==> (#[trigger] s[i].text).len() > 0 && s[i].text.last() == '\n'
}

/// A name is in the denoted mapping exactly when some record carries it.
pub proof fn lemma_recs_map_dom(s: Seq<RecordV>, k: Seq<char>)
    ensures
        recs_map(s).contains_key(k) <==> rec_names(s).contains(k),
    decreases s.len(),
{
    let names = rec_names(s);
    if s.len() == 0 {
        assert(!names.contains(k));
    } else {
        lemma_recs_map_dom(s.drop_last(), k);
        let names0 = rec_names(s.drop_last());
        assert(names =~= names0.push(s.last().name));
        if names.contains(k) {
            let i = choose|i: int| 0 <= i < names.len() && names[i] == k;
            if i < names.len() - 1 {
                assert(names0[i] == k);
                assert(names0.contains(k));
            }
        }
        if names0.contains(k) {
            let i = choose|i: int| 0 <= i < names0.len() && names0[i] == k;
            assert(names[i] == k);
            assert(names.contains(k));
        }
        if s.last().name == k {
            assert(names[names.len() - 1] == k);
            assert(names.contains(k));
        }
    }
}

/// With distinct names, each record's statement is the one the mapping holds.
pub proof fn lemma_recs_map_at(s: Seq<RecordV>, i: int)
    requires
        forall|p: int, q: int| 0 <= p < q < s.len() ==> (#[trigger] s[p].name) != (#[trigger] s[q].name),
        0 <= i < s.len(),
    ensures
        recs_map(s).contains_key(s[i].name),
        recs_map(s)[s[i].name] == s[i].text,
    decreases s.len(),
{
    if i == s.len() - 1 {
    } else {
        assert(forall|p: int, q: int|
            0 <= p < q < s.drop_last().len() ==> (#[trigger] s.drop_last()[p].name) != (
            #[trigger] s.drop_last()[q].name));
        lemma_recs_map_at(s.drop_last(), i);
        assert(s[i].name != s.last().name);
    }
}

/// Replacing the record at a position of the same name is an insert on the
/// denoted mapping.
pub proof fn lemma_recs_map_update(s: Seq<RecordV>, i: int, r: RecordV)
    requires
        0 <= i < s.len(),
        s[i].name == r.name,
        forall|p: int, q: int| 0 <= p < q < s.len() ==> (#[trigger] s[p].name) != (#[trigger] s[q].name),
    ensures
        recs_map(s.update(i, r)) == recs_map(s).insert(r.name, r.text),
    decreases s.len(),
{
    let u = s.update(i, r);
    if i == s.len() - 1 {
        assert(u.drop_last() =~= s.drop_last());
        assert(u.last() == r);
        assert(recs_map(u) =~= recs_map(s).insert(r.name, r.text));
    } else {
        assert(u.drop_last() =~= s.drop_last().update(i, r));
        assert(u.last() == s.last());
        assert(forall|p: int, q: int|
            0 <= p < q < s.drop_last().len() ==> (#[trigger] s.drop_last()[p].name) != (
            #[trigger] s.drop_last()[q].name));
        lemma_recs_map_update(s.drop_last(), i, r);
        assert(s.last().name != r.name);
        assert(recs_map(u) =~= recs_map(s).insert(r.name, r.text));
    }
}

/// Inserting a record under a fresh name is an insert on the denoted mapping.
pub proof fn lemma_recs_map_insert(s: Seq<RecordV>, i: int, r: RecordV)
    requires
        0 <= i <= s.len(),
        !rec_names(s).contains(r.name),
    ensures
        recs_map(s.insert(i, r)) == recs_map(s).insert(r.name, r.text),
    decreases s.len(),
{
    let u = s.insert(i, r);
    if i == s.len() {
        assert(u =~= s.push(r));
        assert(u.drop_last() =~= s);
        assert(recs_map(u) =~= recs_map(s).insert(r.name, r.text));
    } else {
        assert(u.drop_last() =~= s.drop_last().insert(i, r));
        assert(u.last() == s.last());
        assert(rec_names(s)[s.len() - 1] == s.last().name);
        assert(s.last().name != r.name);
        assert(forall|j: int|
            0 <= j < s.drop_last().len() ==> rec_names(s.drop_last())[j] == rec_names(s)[j]);
        assert(!rec_names(s.drop_last()).contains(r.name)) by {
            if rec_names(s.drop_last()).contains(r.name) {
                let j = choose|j: int|
                    0 <= j < rec_names(s.drop_last()).len() && rec_names(s.drop_last())[j]
                        == r.name;
                assert(rec_names(s)[j] == r.name);
            }
        }
        lemma_recs_map_insert(s.drop_last(), i, r);
        assert(recs_map(u) =~= recs_map(s).insert(r.name, r.text));
    }
}

/// Removing the record at a position removes its name from the mapping.
pub proof fn lemma_recs_map_remove(s: Seq<RecordV>, i: int)
    requires
        0 <= i < s.len(),
        forall|p: int, q: int| 0 <= p < q < s.len() ==> (#[trigger] s[p].name) != (#[trigger] s[q].name),
    ensures
        recs_map(s.remove(i)) == recs_map(s).remove(s[i].name),
    decreases s.len(),
{
    let u = s.remove(i);
    if i == s.len() - 1 {
        assert(u =~= s.drop_last());
        lemma_recs_map_dom(s.drop_last(), s[i].name);
        assert(!rec_names(s.drop_last()).contains(s[i].name)) by {
            if rec_names(s.drop_last()).contains(s[i].name) {
                let j = choose|j: int|
                    0 <= j < rec_names(s.drop_last()).len() && rec_names(s.drop_last())[j]
                        == s[i].name;
                assert(s[j].name == s[i].name);
            }
        }
        assert(recs_map(u) =~= recs_map(s).remove(s[i].name));
    } else {
        assert(u.drop_last() =~= s.drop_last().remove(i));
        assert(u.last() == s.last());
        assert(forall|p: int, q: int|
            0 <= p < q < s.drop_last().len() ==> (#[trigger] s.drop_last()[p].name) != (
            #[trigger] s.drop_last()[q].name));
        lemma_recs_map_remove(s.drop_last(), i);
        assert(s.last().name != s[i].name);
        assert(recs_map(u) =~= recs_map(s).remove(s[i].name));
    }
}

/// One category of a snapshot: records sorted strictly by name.
pub struct NameSet {
    pub entries: Vec<NameRecord>,
}

impl View for NameSet {
    type V = Seq<RecordV>;

    open spec fn view(&self) -> Seq<RecordV> {
        recs(self.entries@)
    }
}

impl NameSet {
    /// The mapping this set denotes.
    pub open spec fn as_map(self) -> Map<Seq<char>, Seq<char>> {
        recs_map(self@)
    }

    /// Sorted strictly by name, statements newline-terminated.
    pub open spec fn wf(self) -> bool {
        wf_recs(self@)
    }

    /// An empty set.
    pub fn new() -> (r: Self)
        ensures
            r@ == Seq::<RecordV>::empty(),
            r.as_map() == Map::<Seq<char>, Seq<char>>::empty(),
            r.wf(),
    {
        let r = NameSet { entries: Vec::new() };
        proof {
            assert(r@ =~= Seq::<RecordV>::empty());
        }
        r
    }

    /// Records a statement under a name, replacing an earlier statement of
    /// the same name.
    pub fn insert(&mut self, name: String, text: String)
        requires
            old(self).wf(),
            text@.len() > 0,
            text@.last() == '\n',
        ensures
            final(self).wf(),
            final(self).as_map() == old(self).as_map().insert(name@, text@),
    {
        let ghost s0 = self@;
        let mut i: usize = 0;
        while i < self.entries.len() && str_lt(self.entries[i].name.as_str(), name.as_str())
            invariant
                self@ == s0,
                i <= self.entries@.len(),
                forall|j: int| 0 <= j < i ==> lex_lt(#[trigger] s0[j].name, name@),
            decreases self.entries@.len() - i,
        {
            i = i + 1;
        }
        let rec = NameRecord { name, text };
        if i < self.entries.len() && str_eq(self.entries[i].name.as_str(), rec.name.as_str()) {
            self.entries.remove(i);
            self.entries.insert(i, rec);
            proof {
                assert(self@ =~= s0.update(i as int, RecordV { name: rec.name@, text: rec.text@ }));
                lemma_recs_map_update(
                    s0,
                    i as int,
                    RecordV { name: rec.name@, text: rec.text@ },
                );
                let s1 = self@;
                assert(forall|j: int| 0 <= j < s1.len() ==> (#[trigger] s1[j].name) == s0[j].name);
                assert(wf_recs(s1));
            }
        } else {
            proof {
                if i < s0.len() {
                    lemma_lex_total(rec.name@, s0[i as int].name);
                    assert(lex_lt(rec.name@, s0[i as int].name));
                }
                assert(!rec_names(s0).contains(rec.name@)) by {
                    if rec_names(s0).contains(rec.name@) {
                        let j = choose|j: int|
                            0 <= j < rec_names(s0).len() && rec_names(s0)[j] == rec.name@;
                        if j < i {
                            assert(lex_lt(s0[j].name, rec.name@));
                        } else if j == i {
                        } else {
                            assert(lex_lt(s0[i as int].name, s0[j].name));
                            crate::text::lemma_lex_antisym(rec.name@, s0[j].name);
                        }
                    }
                }
            }
            self.entries.insert(i, rec);
            proof {
                assert(self@ =~= s0.insert(i as int, RecordV { name: rec.name@, text: rec.text@ }));
                lemma_recs_map_insert(
                    s0,
                    i as int,
                    RecordV { name: rec.name@, text: rec.text@ },
                );
                let s1 = self@;
                assert forall|p: int, q: int| 0 <= p < q < s1.len() implies lex_lt(
                    #[trigger] s1[p].name,
                    #[trigger] s1[q].name,
                ) by {
                    if q < i {
                        assert(s1[p] == s0[p] && s1[q] == s0[q]);
                    } else if p < i && q == i {
                        assert(s1[p] == s0[p]);
                    } else if p < i && q > i {
                        assert(s1[p] == s0[p] && s1[q] == s0[q - 1]);
                        if q - 1 == i {
                            crate::text::lemma_lex_lt_trans(s0[p].name, rec.name@, s0[i as int].name);
                        } else {
                            crate::text::lemma_lex_lt_trans(rec.name@, s0[i as int].name, s0[q - 1].name);
                            crate::text::lemma_lex_lt_trans(s0[p].name, rec.name@, s0[q - 1].name);
                        }
                    } else if p == i {
                        assert(s1[q] == s0[q - 1]);
                        if q - 1 > i {
                            crate::text::lemma_lex_lt_trans(rec.name@, s0[i as int].name, s0[q - 1].name);
                        }
                    } else {
                        assert(s1[p] == s0[p - 1] && s1[q] == s0[q - 1]);
                    }
                }
            }
        }
    }

    /// Whether a name is recorded.
    pub fn contains_name(&self, name: &str) -> (r: bool)
        ensures
            r == self.as_map().contains_key(name@),
    {
        let ghost s = self@;
        let mut i: usize = 0;
        while i < self.entries.len()
            invariant
                s == self@,
                i <= s.len(),
                forall|j: int| 0 <= j < i ==> (#[trigger] s[j].name) != name@,
            decreases s.len() - i,
        {
            if str_eq(self.entries[i].name.as_str(), name) {
                proof {
                    lemma_recs_map_dom(s, name@);
                    assert(s[i as int].name == name@);
                    assert(rec_names(s)[i as int] == name@);
                    assert(rec_names(s).contains(name@));
                }
                return true;
            }
            i = i + 1;
        }
        proof {
            lemma_recs_map_dom(s, name@);
            if rec_names(s).contains(name@) {
                let j = choose|j: int| 0 <= j < rec_names(s).len() && rec_names(s)[j] == name@;
                assert(s[j].name == name@);
            }
        }
        false
    }

    /// The statement recorded under a name, if any.
    pub fn get_text(&self, name: &str) -> (r: Option<String>)
        requires
            self.wf(),
        ensures
            r is Some <==> self.as_map().contains_key(name@),
            r is Some ==> r->0@ == self.as_map()[name@],
    {
        let ghost s = self@;
        let mut i: usize = 0;
        while i < self.entries.len()
            invariant
                s == self@,
                self.wf(),
                i <= s.len(),
                forall|j: int| 0 <= j < i ==> (#[trigger] s[j].name) != name@,
            decreases s.len() - i,
        {
            if str_eq(self.entries[i].name.as_str(), name) {
                proof {
                    lemma_recs_map_dom(s, name@);
                    assert(s[i as int].name == name@);
                    assert(rec_names(s)[i as int] == name@);
                    assert(rec_names(s).contains(name@));
                    lemma_recs_map_at(s, i as int);
                }
                return Some(self.entries[i].text.clone());
            }
            i = i + 1;
        }
        proof {
            lemma_recs_map_dom(s, name@);
            if rec_names(s).contains(name@) {
                let j = choose|j: int| 0 <= j < rec_names(s).len() && rec_names(s)[j] == name@;
                assert(s[j].name == name@);
            }
        }
        None
    }

    /// Removes a name and its statement, if recorded.
    pub fn remove_name(&mut self, name: &str)
        requires
            old(self).wf(),
        ensures
            final(self).wf(),
            final(self).as_map() == old(self).as_map().remove(name@),
    {
        let ghost s0 = self@;
        let mut i: usize = 0;
        while i < self.entries.len()
            invariant
                s0 == self@,
                self@ == old(self)@,
                self.wf(),
                i <= s0.len(),
                forall|j: int| 0 <= j < i ==> (#[trigger] s0[j].name) != name@,
            decreases s0.len() - i,
        {
            if str_eq(self.entries[i].name.as_str(), name) {
                proof {
                    assert(s0[i as int].name == name@);
                }
                self.entries.remove(i);
                proof {
                    assert(self@ =~= s0.remove(i as int));
                    lemma_recs_map_remove(s0, i as int);
                    let s1 = self@;
                    assert forall|p: int, q: int| 0 <= p < q < s1.len() implies lex_lt(
                        #[trigger] s1[p].name,
                        #[trigger] s1[q].name,
                    ) by {
                        if q < i {
                        } else if p < i {
                            assert(s1[q] == s0[q + 1]);
                        } else {
                            assert(s1[p] == s0[p + 1] && s1[q] == s0[q + 1]);
                        }
                    }
                }
                return ;
            }
            i = i + 1;
        }
        proof {
            lemma_recs_map_dom(s0, name@);
            if rec_names(s0).contains(name@) {
                let j = choose|j: int| 0 <= j < rec_names(s0).len() && rec_names(s0)[j] == name@;
                assert(s0[j].name == name@);
            }
            assert(!self.as_map().contains_key(name@));
            assert(self.as_map() =~= self.as_map().remove(name@));
        }
    }
}

} // verus!
