use libnss::interop::{NssStatus, Response};

#[test]
fn status_codes_follow_the_host_abi() {
    assert_eq!(NssStatus::TryAgain.code(), -2);
    assert_eq!(NssStatus::Unavail.code(), -1);
    assert_eq!(NssStatus::NotFound.code(), 0);
    assert_eq!(NssStatus::Success.code(), 1);
}

#[test]
fn status_codes_are_distinct() {
    let all = [
        NssStatus::TryAgain,
        NssStatus::Unavail,
        NssStatus::NotFound,
        NssStatus::Success,
    ];
    for a in all.iter() {
        for b in all.iter() {
            assert_eq!(a.code() == b.code(), a == b);
        }
    }
}

#[test]
fn response_maps_to_its_status() {
    assert_eq!(Response::<u8>::TryAgain.to_status(), NssStatus::TryAgain);
    assert_eq!(Response::<u8>::Unavail.to_status(), NssStatus::Unavail);
    assert_eq!(Response::<u8>::NotFound.to_status(), NssStatus::NotFound);
    assert_eq!(Response::Success(7u8).to_status(), NssStatus::Success);
}

#[test]
fn unclassified_failure_is_unavailable() {
    let failed: Result<u8, String> = Err(String::from("backend down"));
    assert!(matches!(Response::from_result(failed), Response::Unavail));
    let found: Result<u8, String> = Ok(3);
    assert!(matches!(Response::from_result(found), Response::Success(3)));
}
