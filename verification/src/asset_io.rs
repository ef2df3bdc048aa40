//! The asset lookup layer above the store: the decrypted manifest's asset
//! records, reduced to a table from packed identifier to content key. The
//! surrounding program resolves that content key through the encoding table
//! and retrieves the bytes from the store.

use vstd::prelude::*;
use crate::tact_manifest::ContentManifestAsset;
use vstd::slice::slice_to_vec;

verus! {

/// The session's asset table: each manifest asset's identifier paired with
/// its content key, in manifest order.
#[derive(Debug)]
pub struct AssetIo {
    pub assets: Vec<(u64, Vec<u8>)>,
}

/// The views of the table's rows.
pub open spec fn asset_views(s: Seq<(u64, Vec<u8>)>) -> Seq<(u64, Seq<u8>)> {
    s.map_values(|p: (u64, Vec<u8>)| (p.0, p.1@))
}

impl View for AssetIo {
    type V = Seq<(u64, Seq<u8>)>;

    open spec fn view(&self) -> Seq<(u64, Seq<u8>)> {
        asset_views(self.assets@)
    }
}

/// The content key an identifier resolves to: among equal identifiers, the
/// row inserted last wins, as a later manifest record shadows an earlier one.
pub open spec fn lookup_asset(rows: Seq<(u64, Seq<u8>)>, guid: u64) -> Option<Seq<u8>>
    decreases rows.len(),
{
    if rows.len() == 0 {
        None
    } else if rows.last().0 == guid {
        Some(rows.last().1)
    } else {
        lookup_asset(rows.drop_last(), guid)
    }
}

impl AssetIo {
    /// Build the table from a decrypted manifest's asset records.
    pub fn from_assets(assets: &Vec<ContentManifestAsset>) -> (r: AssetIo)
        ensures
            r@.len() == assets@.len(),
            forall|i: int| 0 <= i < assets@.len() ==> #[trigger] r@[i] == (
            assets@[i]@.guid,
            assets@[i]@.md5,
            ),
    {
        let n = assets.len();
        let mut rows: Vec<(u64, Vec<u8>)> = Vec::new();
        let mut i: usize = 0;
        while i < n
            invariant
                i <= n,
                n == assets@.len(),
                rows@.len() == i,
                forall|k: int| 0 <= k < i ==> (#[trigger] rows@[k]).0 == assets@[k]@.guid
                    && rows@[k].1@ == assets@[k]@.md5,
            decreases n - i,
        {
            let a = &assets[i];
            rows.push((a.guid, slice_to_vec(a.md5.as_slice())));
            i = i + 1;
        }
        let r = AssetIo { assets: rows };
        proof {
            assert forall|i: int| 0 <= i < assets@.len() implies #[trigger] r@[i] == (
            assets@[i]@.guid,
            assets@[i]@.md5,
            ) by {
                assert(r@[i] == (r.assets@[i].0, r.assets@[i].1@));
            }
        }
        r
    }

    /// The content key of an identifier, or nothing when no manifest record
    /// named it; among several, the record seen last decides.
    pub fn content_key(&self, guid: u64) -> (r: Option<&Vec<u8>>)
        ensures
            match r {
                Some(v) => lookup_asset(self@, guid) == Some(v@),
                None => lookup_asset(self@, guid) is None,
            },
    {
        let ghost rows = self@;
        let mut i: usize = self.assets.len();
        proof {
            assert(rows.take(i as int) =~= rows);
        }
        while i > 0
            invariant
                i <= self.assets@.len(),
                rows == self@,
                lookup_asset(rows, guid) == lookup_asset(rows.take(i as int), guid),
            decreases i,
        {
            i = i - 1;
            let row = &self.assets[i];
            proof {
                assert(rows[i as int] == (self.assets@[i as int].0, self.assets@[i as int].1@));
                assert(rows.take(i + 1).drop_last() =~= rows.take(i as int));
                assert(rows.take(i + 1).last() == rows[i as int]);
            }
            if row.0 == guid {
                return Some(&row.1);
            }
        }
        proof {
            assert(rows.take(0) =~= Seq::<(u64, Seq<u8>)>::empty());
        }
        None
    }
}

} // verus!
