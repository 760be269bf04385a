use vstd::prelude::*;

use crate::error::AssetError;

verus! {

/// The identifiers of one tileset: `first_gid .. first_gid + count`.
#[derive(Debug, Clone, Copy, PartialEq, Eq, Structural)]
pub struct GidRange {
    pub first_gid: u32,
    pub count: u32,
}

/// Maps every global tile identifier of a map to a tileset and a sprite
/// inside it. Identifier 0 marks an empty cell and belongs to no tileset.
#[derive(Debug)]
pub struct GidTable {
    pub ranges: Vec<GidRange>,
}

/// Ranges start above 0 and in strictly ascending order.
pub open spec fn ranges_wf(r: Seq<GidRange>) -> bool {
    &&& forall|i: int| 0 <= i < r.len() ==> r[i].first_gid >= 1
    &&& forall|i: int, j: int| 0 <= i < j < r.len() ==> r[i].first_gid < r[j].first_gid
}

/// Tileset `i` is the one with the greatest `first_gid` not above `gid`.
pub open spec fn owner_is(r: Seq<GidRange>, gid: u32, i: int) -> bool {
    &&& 0 <= i < r.len()
    &&& r[i].first_gid <= gid
    &&& (i + 1 == r.len() || gid < r[i + 1].first_gid)
}

/// `gid` falls inside the range of tileset `i`.
pub open spec fn covers(r: Seq<GidRange>, gid: u32, i: int) -> bool {
    &&& owner_is(r, gid, i)
    &&& gid - r[i].first_gid < r[i].count
}

/// Some tileset's range holds `gid`.
pub open spec fn resolvable(r: Seq<GidRange>, gid: u32) -> bool {
    exists|i: int| covers(r, gid, i)
}

/// What resolving `gid` yields: `None` for an empty cell, else the tileset
/// and the sprite inside it.
pub open spec fn resolve_spec(r: Seq<GidRange>, gid: u32) -> Result<Option<(usize, usize)>, AssetError> {
    if gid == 0 {
        Ok(None)
    } else if resolvable(r, gid) {
        let i = choose|i: int| covers(r, gid, i);
        Ok(Some((i as usize, (gid - r[i].first_gid) as usize)))
    } else {
        Err(AssetError::InvalidGid)
    }
}

/// In well-formed ranges at most one tileset owns an identifier.
pub proof fn lemma_owner_unique(r: Seq<GidRange>, gid: u32, i: int, j: int)
    requires
        ranges_wf(r),
        owner_is(r, gid, i),
        owner_is(r, gid, j),
    ensures
        i == j,
{
    if i < j {
        assert(r[i + 1].first_gid <= r[j].first_gid);
    } else if j < i {
        assert(r[j + 1].first_gid <= r[i].first_gid);
    }
}

/// Identifier 0 resolves to no tile, and no tileset's range holds it.
pub proof fn lemma_gid_zero_is_empty(r: Seq<GidRange>)
    requires
        ranges_wf(r),
    ensures
        resolve_spec(r, 0) == Ok::<Option<(usize, usize)>, AssetError>(None),
        !resolvable(r, 0),
{
    assert forall|i: int| !covers(r, 0, i) by {
        if 0 <= i < r.len() {
            assert(r[i].first_gid >= 1);
        }
    }
}

impl GidTable {
    pub open spec fn wf(&self) -> bool {
        &&& ranges_wf(self.ranges@)
        &&& self.ranges@.len() <= usize::MAX
    }

    /// Builds the table from the tilesets' ranges, in map order. A map whose
    /// tilesets do not start above 0 in strictly ascending order is malformed.
    pub fn new(ranges: Vec<GidRange>) -> (r: Result<GidTable, AssetError>)
        ensures
            r matches Ok(t) ==> t.wf(),
            ranges_wf(ranges@) ==> r == Ok::<GidTable, AssetError>(GidTable { ranges }),
            !ranges_wf(ranges@) ==> r == Err::<GidTable, AssetError>(AssetError::MapParse),
    {
        let n = ranges.len();
        let mut k: usize = 0;
        while k < n
            invariant
                n == ranges@.len(),
                k <= n,
                forall|i: int| 0 <= i < k ==> ranges@[i].first_gid >= 1,
                forall|i: int, j: int| 0 <= i < j < k ==> ranges@[i].first_gid < ranges@[j].first_gid,
            decreases n - k,
        {
            if ranges[k].first_gid == 0 || (k > 0 && ranges[k - 1].first_gid >= ranges[k].first_gid) {
                return Err(AssetError::MapParse);
            }
            k = k + 1;
        }
        Ok(GidTable { ranges })
    }

    /// Resolves a global tile identifier: `Ok(None)` for 0, the tileset and
    /// the sprite inside it for an identifier in a tileset's range, and
    /// `InvalidGid` for any other.
    pub fn resolve(&self, gid: u32) -> (r: Result<Option<(usize, usize)>, AssetError>)
        requires
            self.wf(),
        ensures
            r == resolve_spec(self.ranges@, gid),
    {
        if gid == 0 {
            return Ok(None);
        }
        let n = self.ranges.len();
        let mut found: Option<usize> = None;
        let mut i: usize = 0;
        while i < n && self.ranges[i].first_gid <= gid
            invariant
                self.wf(),
                n == self.ranges@.len(),
                i <= n,
                found is None ==> i == 0,
                found matches Some(f) ==> f + 1 == i && self.ranges@[f as int].first_gid <= gid,
            decreases n - i,
        {
            found = Some(i);
            i = i + 1;
        }
        match found {
            None => {
                assert(!resolvable(self.ranges@, gid)) by {
                    assert forall|j: int| !covers(self.ranges@, gid, j) by {
                        if 0 <= j < n && self.ranges@[j].first_gid <= gid {
                            assert(self.ranges@[0].first_gid <= self.ranges@[j].first_gid);
                        }
                    }
                }
                Err(AssetError::InvalidGid)
            },
            Some(f) => {
                let first = self.ranges[f].first_gid;
                assert(owner_is(self.ranges@, gid, f as int));
                if gid - first < self.ranges[f].count {
                    assert(covers(self.ranges@, gid, f as int));
                    proof {
                        let c = choose|c: int| covers(self.ranges@, gid, c);
                        lemma_owner_unique(self.ranges@, gid, f as int, c);
                    }
                    Ok(Some((f, (gid - first) as usize)))
                } else {
                    assert forall|j: int| !covers(self.ranges@, gid, j) by {
                        if covers(self.ranges@, gid, j) {
                            lemma_owner_unique(self.ranges@, gid, f as int, j);
                        }
                    }
                    Err(AssetError::InvalidGid)
                }
            },
        }
    }
}

} // verus!
