use vstd::prelude::*;

use crate::scene::{contains_value, references, PrefabEntity};

verus! {

/// How the output holds a sheet's image: a copy of the map's own sheet
/// image at the given path, or freshly encoded PNG bytes of a packed sheet.
#[derive(Debug, Clone)]
pub enum MapFile {
    Path(String),
    Data(Vec<u8>),
}

/// The image file of sheet `sheet`.
#[derive(Debug, Clone)]
pub struct SheetFile {
    pub sheet: usize,
    pub data: MapFile,
}

pub open spec fn kept_files(files: Seq<SheetFile>, used: Seq<usize>) -> Seq<SheetFile> {
    files.filter(|f: SheetFile| used.contains(f.sheet))
}

/// Keeps, in order, the files of the sheets listed in `used`.
pub fn output_files(files: Vec<SheetFile>, used: &Vec<usize>) -> (r: Vec<SheetFile>)
    ensures
        r@ == kept_files(files@, used@),
{
    let ghost all = files@;
    let n = files.len();
    let mut rest = files;
    let mut out: Vec<SheetFile> = Vec::new();
    let mut k: usize = 0;
    while k < n
        invariant
            n == all.len(),
            k <= n,
            rest@ == all.subrange(k as int, n as int),
            out@ == kept_files(all.subrange(0, k as int), used@),
        decreases n - k,
    {
        let f = rest.remove(0);
        let ghost next = all.subrange(0, k + 1);
        proof {
            assert(next.drop_last() =~= all.subrange(0, k as int));
            assert(next == all.subrange(0, k as int).push(f));
            all.subrange(0, k as int).lemma_filter_push(f, |f: SheetFile| used@.contains(f.sheet));
        }
        if contains_value(used, f.sheet) {
            out.push(f);
        }
        assert(rest@ =~= all.subrange(k + 1, n as int));
        k = k + 1;
    }
    assert(all.subrange(0, n as int) =~= all);
    out
}

/// A sheet that no entity uses is never among the files written.
pub proof fn lemma_unused_sheet_not_written(files: Seq<SheetFile>, entities: Seq<PrefabEntity>, used: Seq<usize>, sh: usize)
    requires
        forall|x: usize| used.contains(x) <==> references(entities, x),
        !references(entities, sh),
    ensures
        forall|k: int| 0 <= k < kept_files(files, used).len() ==> (#[trigger] kept_files(files, used)[k]).sheet != sh,
{
    assert forall|k: int| 0 <= k < kept_files(files, used).len() implies (#[trigger] kept_files(files, used)[k]).sheet != sh by {
        files.lemma_filter_pred(|f: SheetFile| used.contains(f.sheet), k);
    }
}

} // verus!
