//! The client-side cookie store, modelled as a map from cookie name to
//! value. The browser (or response-header) transport that carries the
//! cookies is an external collaborator; the store itself, and the
//! get-or-insert logic on it, is verified here.

use vstd::prelude::*;

use crate::text::str_eq;

verus! {

/// One stored cookie: a name and its value.
pub struct CookieEntry {
    pub name: String,
    pub value: String,
}

/// A client's cookies: at most one value per name.
pub struct CookieJar {
    entries: Vec<CookieEntry>,
}

/// The map the entries denote; a later entry for a name would override an
/// earlier one, but a well-formed jar holds each name once.
spec fn jar_map(entries: Seq<CookieEntry>) -> Map<Seq<char>, Seq<char>>
    decreases entries.len(),
{
    if entries.len() == 0 {
        Map::empty()
    } else {
        jar_map(entries.drop_last()).insert(entries.last().name@, entries.last().value@)
    }
}

impl View for CookieJar {
    type V = Map<Seq<char>, Seq<char>>;

    closed spec fn view(&self) -> Map<Seq<char>, Seq<char>> {
        jar_map(self.entries@)
    }
}

/// A name held by no entry is absent from the map.
proof fn lemma_jar_map_no_key(entries: Seq<CookieEntry>, k: Seq<char>)
    requires
        forall|i: int| 0 <= i < entries.len() ==> (#[trigger] entries[i]).name@ != k,
    ensures
        !jar_map(entries).contains_key(k),
    decreases entries.len(),
{
    if entries.len() > 0 {
        assert forall|i: int| 0 <= i < entries.drop_last().len() implies (#[trigger] entries.drop_last()[i]).name@ != k by {
            assert(entries.drop_last()[i] == entries[i]);
        }
        lemma_jar_map_no_key(entries.drop_last(), k);
        assert(entries.last() == entries[entries.len() - 1]);
    }
}

/// With unique names, each entry is in the map under its name.
proof fn lemma_jar_map_at(entries: Seq<CookieEntry>, i: int)
    requires
        forall|a: int, b: int|
            0 <= a < b < entries.len() ==> entries[a].name@ != entries[b].name@,
        0 <= i < entries.len(),
    ensures
        jar_map(entries).contains_key(entries[i].name@),
        jar_map(entries)[entries[i].name@] == entries[i].value@,
    decreases entries.len(),
{
    assert(entries.last() == entries[entries.len() - 1]);
    if i < entries.len() - 1 {
        assert forall|a: int, b: int|
            0 <= a < b < entries.drop_last().len() implies entries.drop_last()[a].name@
            != entries.drop_last()[b].name@ by {
            assert(entries.drop_last()[a] == entries[a]);
            assert(entries.drop_last()[b] == entries[b]);
        }
        lemma_jar_map_at(entries.drop_last(), i);
        assert(entries.drop_last()[i] == entries[i]);
        assert(entries[i].name@ != entries[entries.len() - 1].name@);
    }
}

/// With unique names, replacing the entry at `i` by one of the same name
/// acts on the map as an insert under that name.
proof fn lemma_jar_map_update(entries: Seq<CookieEntry>, i: int, e: CookieEntry)
    requires
        forall|a: int, b: int|
            0 <= a < b < entries.len() ==> entries[a].name@ != entries[b].name@,
        0 <= i < entries.len(),
        e.name@ == entries[i].name@,
    ensures
        jar_map(entries.update(i, e)) == jar_map(entries).insert(e.name@, e.value@),
    decreases entries.len(),
{
    assert(entries.last() == entries[entries.len() - 1]);
    if i == entries.len() - 1 {
        assert(entries.update(i, e).drop_last() =~= entries.drop_last());
        assert(entries.update(i, e).last() == e);
        assert(jar_map(entries.drop_last()).insert(entries[i].name@, entries[i].value@).insert(
            e.name@,
            e.value@,
        ) =~= jar_map(entries.drop_last()).insert(e.name@, e.value@));
    } else {
        assert forall|a: int, b: int|
            0 <= a < b < entries.drop_last().len() implies entries.drop_last()[a].name@
            != entries.drop_last()[b].name@ by {
            assert(entries.drop_last()[a] == entries[a]);
            assert(entries.drop_last()[b] == entries[b]);
        }
        assert(entries.drop_last()[i] == entries[i]);
        lemma_jar_map_update(entries.drop_last(), i, e);
        assert(entries.update(i, e).drop_last() =~= entries.drop_last().update(i, e));
        assert(entries.update(i, e).last() == entries.last());
        assert(entries[i].name@ != entries[entries.len() - 1].name@);
        assert(jar_map(entries.drop_last()).insert(e.name@, e.value@).insert(
            entries.last().name@,
            entries.last().value@,
        ) =~= jar_map(entries.drop_last()).insert(entries.last().name@, entries.last().value@)
            .insert(e.name@, e.value@));
    }
}

impl CookieJar {
    /// Each name is held at most once.
    pub closed spec fn wf(&self) -> bool {
        forall|a: int, b: int|
            0 <= a < b < self.entries@.len() ==> self.entries@[a].name@ != self.entries@[b].name@
    }

    /// An empty jar.
    pub fn new() -> (jar: CookieJar)
        ensures
            jar.wf(),
            jar@ == Map::<Seq<char>, Seq<char>>::empty(),
    {
        CookieJar { entries: Vec::new() }
    }

    /// Store `(key, value)`, replacing any value the key held before.
    pub fn set_cookie(&mut self, key: &str, value: &str)
        requires
            old(self).wf(),
        ensures
            final(self).wf(),
            final(self)@ == old(self)@.insert(key@, value@),
    {
        let n = self.entries.len();
        let mut i: usize = 0;
        while i < n
            invariant
                i <= n,
                n == self.entries@.len(),
                self.entries@ == old(self).entries@,
                old(self).wf(),
                forall|k: int| 0 <= k < i ==> (#[trigger] self.entries@[k]).name@ != key@,
            decreases n - i,
        {
            if str_eq(self.entries[i].name.as_str(), key) {
                let e = CookieEntry { name: key.to_owned(), value: value.to_owned() };
                proof {
                    lemma_jar_map_update(self.entries@, i as int, e);
                }
                self.entries[i] = e;
                proof {
                    assert forall|a: int, b: int|
                        0 <= a < b < self.entries@.len() implies self.entries@[a].name@
                        != self.entries@[b].name@ by {
                        assert(old(self).entries@[a].name@ != old(self).entries@[b].name@);
                    }
                }
                return ;
            }
            i = i + 1;
        }
        let e = CookieEntry { name: key.to_owned(), value: value.to_owned() };
        self.entries.push(e);
        proof {
            assert(self.entries@.drop_last() =~= old(self).entries@);
            assert forall|a: int, b: int|
                0 <= a < b < self.entries@.len() implies self.entries@[a].name@
                != self.entries@[b].name@ by {
                if b < self.entries@.len() - 1 {
                    assert(old(self).entries@[a].name@ != old(self).entries@[b].name@);
                } else {
                    assert(self.entries@[a] == old(self).entries@[a]);
                }
            }
        }
    }

    /// The value stored under `key`, if any.
    pub fn get_cookie(&self, key: &str) -> (r: Option<String>)
        requires
            self.wf(),
        ensures
            self@.contains_key(key@) ==> r is Some && r.unwrap()@ == self@[key@],
            !self@.contains_key(key@) ==> r is None,
    {
        let n = self.entries.len();
        let mut i: usize = 0;
        while i < n
            invariant
                i <= n,
                n == self.entries@.len(),
                self.wf(),
                forall|k: int| 0 <= k < i ==> (#[trigger] self.entries@[k]).name@ != key@,
            decreases n - i,
        {
            if str_eq(self.entries[i].name.as_str(), key) {
                proof {
                    lemma_jar_map_at(self.entries@, i as int);
                }
                return Some(self.entries[i].value.clone());
            }
            i = i + 1;
        }
        proof {
            lemma_jar_map_no_key(self.entries@, key@);
        }
        None
    }

    /// The value stored under `key`; without one, `default` is stored
    /// under `key` and returned.
    pub fn get_or_insert_cookie(&mut self, key: &str, default: &str) -> (r: String)
        requires
            old(self).wf(),
        ensures
            final(self).wf(),
            old(self)@.contains_key(key@) ==> final(self)@ == old(self)@ && r@ == old(self)@[key@],
            !old(self)@.contains_key(key@) ==> final(self)@ == old(self)@.insert(key@, default@)
                && r@ == default@,
    {
        match self.get_cookie(key) {
            Some(v) => v,
            None => {
                self.set_cookie(key, default);
                default.to_owned()
            },
        }
    }
}

} // verus!
