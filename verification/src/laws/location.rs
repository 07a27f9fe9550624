//! Which environment variables count.
use vstd::prelude::*;
use crate::location::is_given;

verus! {

/// An environment variable counts whatever it holds, as long as it holds
/// something; an empty one is as good as none.
pub proof fn law_empty_variable_is_as_good_as_none(value: &[u8])
    ensures
        is_given(Some(value)) <==> value@.len() > 0,
        value@.len() == 0 ==> is_given(Some(value)) == is_given(None),
        !is_given(None),
{
}

} // verus!
