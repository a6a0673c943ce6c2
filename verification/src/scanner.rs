//! The scanner: one level of tree growth from a directory listing.
//!
//! A `Scanner` holds the snapshot listing of one directory and appends a
//! child entry to a target entry for each listed name, skipping names the
//! target already has.

use vstd::prelude::*;
use crate::dotpath::DotPath;
use crate::dotpath::model_add_entries;
use crate::errors::DotError;
use crate::fstree::FsChild;
use crate::fstree::FsChildModel;
use crate::fstree::models_of;

verus! {

/// A scanner over one directory's snapshot listing.
pub struct Scanner<'a> {
    entries: &'a Vec<FsChild>,
}

impl<'a> Scanner<'a> {
    /// The listing this scanner works through.
    pub closed spec fn listing(self) -> Seq<FsChildModel> {
        models_of(self.entries@)
    }

    /// A scanner over the given listing.
    pub fn new(entries: &'a Vec<FsChild>) -> (r: Scanner<'a>)
        ensures
            r.listing() == models_of(entries@),
    {
        Scanner { entries }
    }

    /// Append a child to `target` for every listed entry, in listing
    /// order; names already present are skipped.  The first child whose
    /// configuration file fails to parse stops the scan with the tree as
    /// it stood.
    pub fn scan(&self, target: &mut DotPath) -> (r: Result<(), DotError>)
        requires
            old(target).wf(),
        ensures
            final(target).wf(),
            ({
                let m = model_add_entries(old(target)@, self.listing());
                m.0 == final(target)@ && m.1 == r
            }),
    {
        let n = self.entries.len();
        let mut i: usize = 0;
        proof {
            crate::fstree::lemma_models_of(self.entries@);
            assert(self.entries@.subrange(0, n as int) =~= self.entries@);
        }
        while i < n
            invariant
                0 <= i <= n,
                n == self.entries@.len(),
                target.wf(),
                model_add_entries(old(target)@, models_of(self.entries@)) == model_add_entries(
                    target@,
                    models_of(self.entries@.subrange(i as int, n as int)),
                ),
            decreases n - i,
        {
            let ghost rest = self.entries@.subrange(i as int, n as int);
            proof {
                crate::fstree::lemma_models_of(self.entries@);
                crate::fstree::lemma_models_of(rest);
                crate::fstree::lemma_models_of(rest.drop_first());
                assert(rest.drop_first() =~= self.entries@.subrange(i as int + 1, n as int));
                assert(models_of(rest)[0] == rest[0]@);
                assert(models_of(rest).drop_first() =~= models_of(rest.drop_first()));
            }
            let e = &self.entries[i];
            match target.add_child_by_name(e.name.as_str(), Some(&e.tree)) {
                Err(err) => {
                    return Err(err);
                },
                Ok(_) => {},
            }
            i += 1;
        }
        proof {
            assert(self.entries@.subrange(n as int, n as int) =~= Seq::<FsChild>::empty());
        }
        Ok(())
    }
}

} // verus!
