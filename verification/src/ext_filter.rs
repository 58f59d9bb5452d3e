//! Case-insensitive extension filtering: a file's extension is held against
//! an optional set of allowed (lower-case) extensions.

use vstd::prelude::*;
use crate::text::lower;
use crate::text::lower_str;

verus! {

/// Whether a file extension passes the filter.
/// No filter accepts everything; an explicitly empty filter also accepts
/// everything; a non-empty filter accepts exactly a present extension whose
/// case-folded form equals one of its members.
pub open spec fn ext_accepts(extension: Option<Seq<char>>, allowed: Option<Seq<Seq<char>>>) -> bool {
    match allowed {
        Option::None => true,
        Option::Some(a) => a.len() == 0 || match extension {
            Option::None => false,
            Option::Some(x) => exists|i: int| 0 <= i < a.len() && a[i] == lower(x),
        },
    }
}

/// An absent filter accepts every extension, and so does a filter that is
/// present but empty.
pub proof fn lemma_no_filter_accepts_everything(extension: Option<Seq<char>>)
    ensures
        ext_accepts(extension, Option::None),
        ext_accepts(extension, Option::Some(Seq::<Seq<char>>::empty())),
{
}

/// Decides `ext_accepts` for a concrete extension and filter.
pub fn accepts(extension: Option<&str>, allowed: Option<&Vec<String>>) -> (r: bool)
    ensures
        r == ext_accepts(
            match extension {
                Option::Some(x) => Option::Some(x@),
                Option::None => Option::None,
            },
            match allowed {
                Option::Some(a) => Option::Some(a.deep_view()),
                Option::None => Option::None,
            },
        ),
{
    match allowed {
        Option::None => true,
        Option::Some(a) => {
            if a.len() == 0 {
                true
            } else {
                match extension {
                    Option::None => false,
                    Option::Some(x) => {
                        let lx = lower_str(x);
                        let alen = a.len();
                        let mut i: usize = 0;
                        while i < alen
                            invariant
                                alen == a@.len(),
                                alen > 0,
                                i <= alen,
                                lx@ == lower(x@),
                                extension == Option::Some(x),
                                allowed == Option::Some(a),
                                forall|j: int| 0 <= j < i ==> a.deep_view()[j] != lower(x@),
                            decreases alen - i,
                        {
                            if a[i] == lx {
                                proof {
                                    let ad = a.deep_view();
                                    assert(ad[i as int] == lower(x@));
                                    assert(exists|j: int|
                                        0 <= j < ad.len() && ad[j] == lower(x@));
                                }
                                return true;
                            }
                            i = i + 1;
                        }
                        false
                    },
                }
            }
        },
    }
}

} // verus!
