//! Case-insensitive single-valued header map: last write per name wins,
//! lookups ignore ASCII case, enumeration order carries no meaning.

use vstd::prelude::*;

verus! {

/// ASCII lowercase of one byte.
pub open spec fn spec_lower_byte(b: u8) -> u8 {
    if 65u8 <= b && b <= 90u8 {
        (b + 32) as u8
    } else {
        b
    }
}

/// ASCII lowercase of a byte string; header names are equal up to this.
pub open spec fn spec_lower(s: Seq<u8>) -> Seq<u8> {
    s.map_values(|b: u8| spec_lower_byte(b))
}

fn lower_byte(b: u8) -> (r: u8)
    ensures
        r == spec_lower_byte(b),
{
    if 65u8 <= b && b <= 90u8 {
        b + 32
    } else {
        b
    }
}

/// Whether two byte strings are equal once ASCII case is ignored.
pub fn eq_ignore_ascii_case(a: &[u8], b: &[u8]) -> (r: bool)
    ensures
        r == (spec_lower(a@) == spec_lower(b@)),
{
    if a.len() != b.len() {
        proof {
            assert(spec_lower(a@).len() != spec_lower(b@).len());
        }
        return false;
    }
    let n = a.len();
    let mut i: usize = 0;
    while i < n
        invariant
            n == a@.len() == b@.len(),
            0 <= i <= n,
            forall|k: int| 0 <= k < i ==> spec_lower(a@)[k] == spec_lower(b@)[k],
        decreases n - i,
    {
        if lower_byte(a[i]) != lower_byte(b[i]) {
            proof {
                assert(spec_lower(a@)[i as int] != spec_lower(b@)[i as int]);
            }
            return false;
        }
        i = i + 1;
    }
    proof {
        assert(spec_lower(a@) =~= spec_lower(b@));
    }
    true
}

/// Mapping from case-insensitive header name to a single value. The view is
/// keyed by the lowercased name; an insert overwrites whatever value the
/// name held, whatever its spelling.
pub struct HeaderMap {
    entries: Vec<(Vec<u8>, Vec<u8>)>,
}

impl View for HeaderMap {
    type V = Map<Seq<u8>, Seq<u8>>;

    closed spec fn view(&self) -> Map<Seq<u8>, Seq<u8>> {
        Map::new(
            |k: Seq<u8>|
                exists|i: int|
                    0 <= i < self.entries@.len() && spec_lower(self.entries@[i].0@) == k,
            |k: Seq<u8>|
                {
                    let i = choose|i: int|
                        0 <= i < self.entries@.len() && spec_lower(self.entries@[i].0@) == k;
                    self.entries@[i].1@
                },
        )
    }
}

impl HeaderMap {
    /// No two stored entries share a lowercased name.
    #[verifier::type_invariant]
    closed spec fn inv(&self) -> bool {
        forall|i: int, j: int|
            0 <= i < j < self.entries@.len() ==> spec_lower(self.entries@[i].0@) != spec_lower(
                self.entries@[j].0@,
            )
    }

    pub fn new() -> (r: Self)
        ensures
            r@ == Map::<Seq<u8>, Seq<u8>>::empty(),
    {
        let r = HeaderMap { entries: Vec::new() };
        proof {
            assert(r@ =~= Map::<Seq<u8>, Seq<u8>>::empty());
        }
        r
    }

    /// Removes every entry.
    pub fn clear(&mut self)
        ensures
            final(self)@ == Map::<Seq<u8>, Seq<u8>>::empty(),
    {
        self.entries = Vec::new();
        proof {
            assert(self@ =~= Map::<Seq<u8>, Seq<u8>>::empty());
        }
    }

    /// Inserts or overwrites the value held under `name`, compared without
    /// regard to ASCII case.
    pub fn insert(&mut self, name: Vec<u8>, value: Vec<u8>)
        ensures
            final(self)@ == old(self)@.insert(spec_lower(name@), value@),
    {
        proof {
            use_type_invariant(&*self);
        }
        let ghost lk = spec_lower(name@);
        let mut entries: Vec<(Vec<u8>, Vec<u8>)> = Vec::new();
        core::mem::swap(&mut entries, &mut self.entries);
        let n = entries.len();
        let mut i: usize = 0;
        while i < n
            invariant
                entries@ == old(self).entries@,
                old(self).inv(),
                n == entries@.len(),
                0 <= i <= n,
                forall|k: int| 0 <= k < i ==> spec_lower(entries@[k].0@) != lk,
                lk == spec_lower(name@),
            decreases n - i,
        {
            if eq_ignore_ascii_case(entries[i].0.as_slice(), name.as_slice()) {
                entries[i] = (name, value);
                self.entries = entries;
                proof {
                    assert forall|kk: Seq<u8>| true implies #[trigger] self@.contains_key(kk)
                        == old(self)@.insert(lk, value@).contains_key(kk) && (self@.contains_key(
                        kk,
                    ) ==> self@[kk] == old(self)@.insert(lk, value@)[kk]) by {
                        if kk == lk {
                            assert(spec_lower(self.entries@[i as int].0@) == kk);
                            assert(self@.contains_key(kk));
                            let w = choose|w: int|
                                0 <= w < self.entries@.len() && spec_lower(self.entries@[w].0@)
                                    == kk;
                            assert(w == i) by {
                                if w != i {
                                    assert(spec_lower(old(self).entries@[w].0@) == kk);
                                    assert(spec_lower(old(self).entries@[i as int].0@) == kk);
                                }
                            }
                        } else {
                            if self@.contains_key(kk) {
                                let w = choose|w: int|
                                    0 <= w < self.entries@.len() && spec_lower(
                                        self.entries@[w].0@,
                                    ) == kk;
                                assert(w != i);
                                assert(spec_lower(old(self).entries@[w].0@) == kk);
                                assert(old(self)@.contains_key(kk));
                                let w2 = choose|w2: int|
                                    0 <= w2 < old(self).entries@.len() && spec_lower(
                                        old(self).entries@[w2].0@,
                                    ) == kk;
                                assert(w2 == w) by {
                                    if w2 != w && w2 != i {
                                        assert(spec_lower(old(self).entries@[w2].0@) == spec_lower(
                                            old(self).entries@[w].0@,
                                        ));
                                    }
                                    if w2 == i {
                                        assert(spec_lower(old(self).entries@[i as int].0@) == lk);
                                    }
                                }
                            }
                            if old(self)@.contains_key(kk) {
                                let w2 = choose|w2: int|
                                    0 <= w2 < old(self).entries@.len() && spec_lower(
                                        old(self).entries@[w2].0@,
                                    ) == kk;
                                assert(w2 != i);
                                assert(spec_lower(self.entries@[w2].0@) == kk);
                                assert(self@.contains_key(kk));
                            }
                        }
                    }
                    assert(self@ =~= old(self)@.insert(lk, value@));
                }
                return ;
            }
            i = i + 1;
        }
        entries.push((name, value));
        self.entries = entries;
        proof {
            assert forall|kk: Seq<u8>| true implies #[trigger] self@.contains_key(kk) == old(
                self,
            )@.insert(lk, value@).contains_key(kk) && (self@.contains_key(kk) ==> self@[kk] == old(
                self,
            )@.insert(lk, value@)[kk]) by {
                let m = self.entries@.len();
                assert(self.entries@[m - 1].0@ == name@);
                if kk == lk {
                    assert(spec_lower(self.entries@[m - 1].0@) == kk);
                    assert(self@.contains_key(kk));
                    let w = choose|w: int|
                        0 <= w < self.entries@.len() && spec_lower(self.entries@[w].0@) == kk;
                    assert(w == m - 1) by {
                        if w < m - 1 {
                            assert(spec_lower(old(self).entries@[w].0@) == kk);
                        }
                    }
                } else {
                    if self@.contains_key(kk) {
                        let w = choose|w: int|
                            0 <= w < self.entries@.len() && spec_lower(self.entries@[w].0@) == kk;
                        assert(w != m - 1);
                        assert(spec_lower(old(self).entries@[w].0@) == kk);
                        assert(old(self)@.contains_key(kk));
                        let w2 = choose|w2: int|
                            0 <= w2 < old(self).entries@.len() && spec_lower(
                                old(self).entries@[w2].0@,
                            ) == kk;
                        assert(w2 == w) by {
                            if w2 != w {
                                assert(spec_lower(old(self).entries@[w2].0@) == spec_lower(
                                    old(self).entries@[w].0@,
                                ));
                            }
                        }
                    }
                    if old(self)@.contains_key(kk) {
                        let w2 = choose|w2: int|
                            0 <= w2 < old(self).entries@.len() && spec_lower(
                                old(self).entries@[w2].0@,
                            ) == kk;
                        assert(spec_lower(self.entries@[w2].0@) == kk);
                        assert(self@.contains_key(kk));
                    }
                }
            }
            assert(self@ =~= old(self)@.insert(lk, value@));
        }
    }

    /// Looks up the value held under `name`, compared without regard to
    /// ASCII case.
    pub fn get(&self, name: &[u8]) -> (r: Option<&Vec<u8>>)
        ensures
            match r {
                Some(v) => self@.contains_key(spec_lower(name@)) && v@ == self@[spec_lower(name@)],
                None => !self@.contains_key(spec_lower(name@)),
            },
    {
        proof {
            use_type_invariant(&*self);
        }
        let ghost lk = spec_lower(name@);
        let n = self.entries.len();
        let mut i: usize = 0;
        while i < n
            invariant
                self.inv(),
                n == self.entries@.len(),
                0 <= i <= n,
                forall|k: int| 0 <= k < i ==> spec_lower(self.entries@[k].0@) != lk,
                lk == spec_lower(name@),
            decreases n - i,
        {
            if eq_ignore_ascii_case(self.entries[i].0.as_slice(), name) {
                proof {
                    assert(spec_lower(self.entries@[i as int].0@) == lk);
                    assert(self@.contains_key(lk));
                    let w = choose|w: int|
                        0 <= w < self.entries@.len() && spec_lower(self.entries@[w].0@) == lk;
                    assert(w == i) by {
                        if w != i {
                            assert(spec_lower(self.entries@[w].0@) == spec_lower(
                                self.entries@[i as int].0@,
                            ));
                        }
                    }
                }
                return Some(&self.entries[i].1);
            }
            i = i + 1;
        }
        proof {
            assert(!self@.contains_key(lk));
        }
        None
    }
}

} // verus!
