use vstd::prelude::*;

verus! {

/// The outcomes that the host's name-resolution dispatcher understands.
#[derive(Clone, Copy, Debug, PartialEq, Eq, Structural)]
pub enum NssStatus {
    /// A transient condition; the caller may retry.
    TryAgain,
    /// The backing source could not be consulted.
    Unavail,
    /// The lookup definitively found nothing.
    NotFound,
    /// The lookup produced a record.
    Success,
}

impl NssStatus {
    /// The integer that the host ABI assigns to each status.
    pub open spec fn spec_code(self) -> int {
        match self {
            NssStatus::TryAgain => -2,
            NssStatus::Unavail => -1,
            NssStatus::NotFound => 0,
            NssStatus::Success => 1,
        }
    }

    /// The status as the integer handed back to the host.
    pub fn code(self) -> (c: libc::c_int)
        ensures
            c == self.spec_code(),
    {
        match self {
            NssStatus::TryAgain => -2,
            NssStatus::Unavail => -1,
            NssStatus::NotFound => 0,
            NssStatus::Success => 1,
        }
    }
}

/// Distinct statuses have distinct codes.
pub proof fn lemma_code_injective(a: NssStatus, b: NssStatus)
    ensures
        a.spec_code() == b.spec_code() <==> a == b,
{
}

/// What a lookup hands back: a payload on success, or the reason there is none.
pub enum Response<T> {
    TryAgain,
    Unavail,
    NotFound,
    Success(T),
}

impl<T> Response<T> {
    /// The status that stands for this response.
    pub open spec fn spec_status(&self) -> NssStatus {
        match self {
            Response::TryAgain => NssStatus::TryAgain,
            Response::Unavail => NssStatus::Unavail,
            Response::NotFound => NssStatus::NotFound,
            Response::Success(_) => NssStatus::Success,
        }
    }

    pub fn to_status(&self) -> (status: NssStatus)
        ensures
            status == self.spec_status(),
    {
        match self {
            Response::TryAgain => NssStatus::TryAgain,
            Response::Unavail => NssStatus::Unavail,
            Response::NotFound => NssStatus::NotFound,
            Response::Success(_) => NssStatus::Success,
        }
    }

    /// Classifies the result of a data source: a failure that carries no
    /// finer classification counts as the source being unavailable.
    pub fn from_result<E>(result: Result<T, E>) -> (response: Self)
        ensures
            response == match result {
                Ok(value) => Response::Success(value),
                Err(_) => Response::Unavail,
            },
    {
        match result {
            Ok(value) => Response::Success(value),
            Err(_) => Response::Unavail,
        }
    }
}

} // verus!
