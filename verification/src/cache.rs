use vstd::prelude::*;

verus! {

/// A retained engine object handle held by the cached object table: only
/// functions and promise-like objects are surfaced to host code by
/// reference, so only those two kinds are ever cached.
#[derive(Clone, Copy, PartialEq, Eq, Structural)]
pub enum CachedHandle {
    Function(u64),
    Promise(u64),
}

/// First handle registered under `id`, scanning from the front.
pub open spec fn cache_lookup(s: Seq<(i32, CachedHandle)>, id: i32) -> Option<CachedHandle>
    decreases s.len(),
{
    if s.len() == 0 {
        Option::None
    } else if s[0].0 == id {
        Option::Some(s[0].1)
    } else {
        cache_lookup(s.drop_first(), id)
    }
}

pub open spec fn cache_contains(s: Seq<(i32, CachedHandle)>, id: i32) -> bool {
    cache_lookup(s, id) is Some
}

/// The engine-side table mapping small integer identifiers to retained
/// engine object handles that have been surfaced to host code.  Identifiers
/// are allocated monotonically, so a fresh identifier never aliases a live
/// entry.
pub struct CachedObjectTable {
    entries: Vec<(i32, CachedHandle)>,
    next_id: i32,
}

impl View for CachedObjectTable {
    type V = Seq<(i32, CachedHandle)>;

    closed spec fn view(&self) -> Seq<(i32, CachedHandle)> {
        self.entries@
    }
}

impl CachedObjectTable {
    pub closed spec fn next_id_spec(&self) -> int {
        self.next_id as int
    }

    pub open spec fn wf(&self) -> bool {
        &&& forall|i: int, j: int|
            0 <= i < j < self@.len() ==> #[trigger] self@[i].0 != #[trigger] self@[j].0
        &&& forall|i: int| 0 <= i < self@.len() ==> #[trigger] self@[i].0 < self.next_id_spec()
        &&& 0 <= self.next_id_spec() <= i32::MAX
    }

    pub fn new() -> (t: CachedObjectTable)
        ensures
            t.wf(),
            t@ == Seq::<(i32, CachedHandle)>::empty(),
            t.next_id_spec() == 0,
    {
        CachedObjectTable { entries: Vec::new(), next_id: 0 }
    }

    pub fn len(&self) -> (n: usize)
        ensures
            n == self@.len(),
    {
        self.entries.len()
    }

    /// Register a retained handle and hand back a fresh identifier: the
    /// table grows by exactly this one entry, and the identifier differs
    /// from that of every live entry.
    pub fn cache(&mut self, handle: CachedHandle) -> (id: i32)
        requires
            old(self).wf(),
            old(self).next_id_spec() < i32::MAX,
        ensures
            final(self).wf(),
            id == old(self).next_id_spec(),
            final(self)@ == old(self)@.push((id, handle)),
            final(self).next_id_spec() == old(self).next_id_spec() + 1,
            !cache_contains(old(self)@, id),
            cache_lookup(final(self)@, id) == Option::Some(handle),
            forall|x: i32|
                x != id ==> cache_lookup(final(self)@, x) == cache_lookup(old(self)@, x),
    {
        let id = self.next_id;
        proof {
            lemma_lookup_absent(self@, id);
            lemma_lookup_push(self@, id, handle);
        }
        self.entries.push((id, handle));
        self.next_id = self.next_id + 1;
        id
    }

    /// Look up a live entry.  Unknown identifiers indicate a lifecycle bug
    /// in the caller, so they are ruled out up front.
    pub fn with_cached(&self, id: i32) -> (h: CachedHandle)
        requires
            cache_contains(self@, id),
        ensures
            Option::Some(h) == cache_lookup(self@, id),
    {
        match self.get(id) {
            Option::Some(h) => h,
            Option::None => unreached(),
        }
    }

    /// Total lookup, for callers that must tolerate a dead identifier.
    pub fn get(&self, id: i32) -> (h: Option<CachedHandle>)
        ensures
            h == cache_lookup(self@, id),
    {
        proof {
            assert(self@.skip(0) =~= self@);
        }
        let mut i: usize = 0;
        while i < self.entries.len()
            invariant
                i <= self.entries@.len(),
                cache_lookup(self@.skip(i as int), id) == cache_lookup(self@, id),
            decreases self.entries@.len() - i,
        {
            let entry = self.entries[i];
            proof {
                assert(self@.skip(i as int)[0] == self@[i as int]);
                assert(self@.skip(i as int).drop_first() =~= self@.skip(i as int + 1));
            }
            if entry.0 == id {
                return Some(entry.1);
            }
            i = i + 1;
        }
        proof {
            assert(self@.skip(i as int).len() == 0);
        }
        None
    }

    /// Release the entry registered under `id`, if it is still live: the
    /// table shrinks by exactly that one entry, and every other entry is
    /// kept.  Releasing a dead identifier leaves the table unchanged.
    pub fn consume(&mut self, id: i32) -> (removed: bool)
        requires
            old(self).wf(),
        ensures
            final(self).wf(),
            removed == cache_contains(old(self)@, id),
            cache_lookup(final(self)@, id) == Option::<CachedHandle>::None,
            forall|x: i32|
                x != id ==> cache_lookup(final(self)@, x) == cache_lookup(old(self)@, x),
            removed ==> final(self)@.len() == old(self)@.len() - 1,
            !removed ==> final(self)@ == old(self)@,
            final(self).next_id_spec() == old(self).next_id_spec(),
    {
        let ghost s0 = old(self)@;
        proof {
            assert(s0.skip(0) =~= s0);
        }
        let mut i: usize = 0;
        while i < self.entries.len()
            invariant
                s0 == old(self)@,
                self@ == s0,
                self.wf(),
                self.next_id_spec() == old(self).next_id_spec(),
                i <= s0.len(),
                cache_lookup(s0.skip(i as int), id) == cache_lookup(s0, id),
                forall|k: int| 0 <= k < i ==> #[trigger] s0[k].0 != id,
            decreases s0.len() - i,
        {
            let entry = self.entries[i];
            proof {
                assert(s0.skip(i as int)[0] == s0[i as int]);
                assert(s0.skip(i as int).drop_first() =~= s0.skip(i as int + 1));
            }
            if entry.0 == id {
                proof {
                    assert(cache_lookup(s0.skip(i as int), id) == Option::Some(s0[i as int].1));
                    lemma_lookup_remove_found(s0, id, i as int);
                }
                self.entries.remove(i);
                proof {
                    assert(self@ =~= s0.subrange(0, i as int) + s0.skip(i as int + 1));
                    assert(cache_lookup(s0, id) is Some);
                    assert(cache_contains(s0, id));
                }
                return true;
            }
            i = i + 1;
        }
        proof {
            assert(s0.skip(i as int).len() == 0);
        }
        false
    }
}

/// In a table whose identifiers are all below `id`, `id` is absent.
proof fn lemma_lookup_absent(s: Seq<(i32, CachedHandle)>, id: i32)
    requires
        forall|i: int| 0 <= i < s.len() ==> #[trigger] s[i].0 != id,
    ensures
        cache_lookup(s, id) == Option::<CachedHandle>::None,
    decreases s.len(),
{
    if s.len() > 0 {
        lemma_lookup_absent(s.drop_first(), id);
    }
}

/// Appending a fresh entry adds exactly that binding.
proof fn lemma_lookup_push(s: Seq<(i32, CachedHandle)>, id: i32, h: CachedHandle)
    requires
        forall|i: int| 0 <= i < s.len() ==> #[trigger] s[i].0 != id,
    ensures
        cache_lookup(s.push((id, h)), id) == Option::Some(h),
        forall|x: i32| x != id ==> cache_lookup(s.push((id, h)), x) == cache_lookup(s, x),
    decreases s.len(),
{
    let t = s.push((id, h));
    if s.len() == 0 {
        assert(t[0] == (id, h));
        assert forall|x: i32| x != id implies cache_lookup(t, x) == cache_lookup(s, x) by {
            assert(t.drop_first() =~= Seq::<(i32, CachedHandle)>::empty());
            assert(cache_lookup(t, x) == cache_lookup(t.drop_first(), x));
        }
    } else {
        lemma_lookup_push(s.drop_first(), id, h);
        assert(t.drop_first() =~= s.drop_first().push((id, h)));
        assert(t[0] == s[0]);
        assert forall|x: i32| x != id implies cache_lookup(t, x) == cache_lookup(s, x) by {
            if s[0].0 != x {
                assert(cache_lookup(t, x) == cache_lookup(t.drop_first(), x));
                assert(cache_lookup(s, x) == cache_lookup(s.drop_first(), x));
            }
        }
        assert(cache_lookup(t, id) == cache_lookup(t.drop_first(), id));
    }
}

/// Removing the first entry that carries `id` erases exactly that binding.
proof fn lemma_lookup_remove_found(s: Seq<(i32, CachedHandle)>, id: i32, k: int)
    requires
        0 <= k < s.len(),
        s[k].0 == id,
        forall|j: int| 0 <= j < k ==> #[trigger] s[j].0 != id,
        forall|i: int, j: int| 0 <= i < j < s.len() ==> #[trigger] s[i].0 != #[trigger] s[j].0,
    ensures
        cache_lookup(s.subrange(0, k) + s.skip(k + 1), id) == Option::<CachedHandle>::None,
        forall|x: i32|
            x != id ==> cache_lookup(s.subrange(0, k) + s.skip(k + 1), x) == cache_lookup(s, x),
    decreases k,
{
    let rest = s.subrange(0, k) + s.skip(k + 1);
    if k == 0 {
        assert(rest =~= s.drop_first());
        assert forall|i: int| 0 <= i < rest.len() implies #[trigger] rest[i].0 != id by {
            assert(s[i + 1].0 != s[0].0);
        }
        lemma_lookup_absent(rest, id);
        assert forall|x: i32| x != id implies cache_lookup(rest, x) == cache_lookup(s, x) by {
            assert(cache_lookup(s, x) == cache_lookup(s.drop_first(), x));
        }
    } else {
        let srest = s.drop_first();
        lemma_lookup_remove_found(srest, id, k - 1);
        let rest2 = srest.subrange(0, k - 1) + srest.skip(k);
        assert(rest2 =~= rest.drop_first());
        assert(rest[0] == s[0]);
        assert(s[0].0 != id);
        assert(cache_lookup(rest, id) == cache_lookup(rest2, id));
        assert forall|x: i32| x != id implies cache_lookup(rest, x) == cache_lookup(s, x) by {
            if s[0].0 != x {
                assert(cache_lookup(rest, x) == cache_lookup(rest2, x));
                assert(cache_lookup(s, x) == cache_lookup(srest, x));
            }
        }
    }
}

} // verus!
