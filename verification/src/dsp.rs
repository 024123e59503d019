//! The closed set of prediction filter tags used by the alpha plane.

use vstd::prelude::*;

verus! {

/// The prediction filter applied to each alpha row before storage.
///
/// The first four variants are the filters proper; `WEBP_FILTER_LAST` is the
/// end marker of that range and the remaining two are meta-requests used by
/// encoders when picking a filter.
#[allow(non_camel_case_types)]
#[derive(Clone, Copy, Debug, PartialEq, Eq, Structural)]
pub enum WEBP_FILTER_TYPE {
    WEBP_FILTER_NONE,
    WEBP_FILTER_HORIZONTAL,
    WEBP_FILTER_VERTICAL,
    WEBP_FILTER_GRADIENT,
    WEBP_FILTER_LAST,
    WEBP_FILTER_BEST,
    WEBP_FILTER_FAST,
}

/// The filter tag encoded by the two filter bits of the alpha header.
pub open spec fn filter_from_int(x: int) -> WEBP_FILTER_TYPE {
    if x == 1 {
        WEBP_FILTER_TYPE::WEBP_FILTER_HORIZONTAL
    } else if x == 2 {
        WEBP_FILTER_TYPE::WEBP_FILTER_VERTICAL
    } else if x == 3 {
        WEBP_FILTER_TYPE::WEBP_FILTER_GRADIENT
    } else {
        WEBP_FILTER_TYPE::WEBP_FILTER_NONE
    }
}

impl WEBP_FILTER_TYPE {
    /// Decodes a numeric filter tag into its variant.
    pub fn new(x: i32) -> (r: Self)
        requires
            0 <= x <= 3,
        ensures
            r == filter_from_int(x as int),
    {
        if x == 1 {
            WEBP_FILTER_TYPE::WEBP_FILTER_HORIZONTAL
        } else if x == 2 {
            WEBP_FILTER_TYPE::WEBP_FILTER_VERTICAL
        } else if x == 3 {
            WEBP_FILTER_TYPE::WEBP_FILTER_GRADIENT
        } else {
            WEBP_FILTER_TYPE::WEBP_FILTER_NONE
        }
    }
}

impl Default for WEBP_FILTER_TYPE {
    fn default() -> (r: Self)
        ensures
            r == WEBP_FILTER_TYPE::WEBP_FILTER_NONE,
    {
        WEBP_FILTER_TYPE::WEBP_FILTER_NONE
    }
}

} // verus!
