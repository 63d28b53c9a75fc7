use vpai::interop::{
    display_dialog, log_error, prompt_enabled, version_matches, CsErr, CsHandle, CsSlice, CsStr,
    HostCall, CURRENT_VERSION,
};

#[test]
fn the_invalid_handle_is_zero() {
    assert!(CsHandle::invalid().is_invalid());
    assert_eq!(CsHandle::invalid().to_raw(), 0);
    assert!(!CsHandle::from_raw(7).is_invalid());
    assert!(CsHandle::from_raw(0).is_invalid());
    assert_eq!(CsHandle::from_raw(7).as_ref().to_raw(), 7);
}

#[test]
fn taking_a_handle_leaves_the_invalid_one() {
    let mut h = CsHandle::from_raw(42);
    let taken = h.take();
    assert_eq!(taken.to_raw(), 42);
    assert!(h.is_invalid());
    let again = h.take();
    assert!(again.is_invalid());
    assert!(h.is_invalid());
}

#[test]
fn slices_follow_their_handles() {
    let invalid: CsSlice<u8> = CsSlice::invalid();
    assert!(invalid.is_invalid());
    assert_eq!(invalid.len(), 0);
    assert_eq!(invalid.ptr(), 0);
    let mut s: CsSlice<u32> = CsSlice::from_raw(CsHandle::from_raw(3), 4096, 16);
    assert!(!s.is_invalid());
    let taken = s.take();
    assert_eq!((taken.ptr(), taken.len()), (4096, 16));
    assert!(!taken.is_invalid());
    assert!(s.is_invalid());
    assert_eq!((s.ptr(), s.len()), (0, 0));
}

#[test]
fn texts_and_errors_follow_their_slices() {
    assert!(CsStr::invalid().is_invalid());
    let text = CsStr::from_slice(CsSlice::from_raw(CsHandle::from_raw(9), 100, 5));
    assert!(!text.is_invalid());
    assert_eq!(text.slice().len(), 5);
    let none = CsErr::invalid();
    assert!(none.is_invalid());
    assert_eq!(none.as_id, 0);
    let some = CsErr { str: text, as_id: 12 };
    assert!(!some.is_invalid());
}

#[test]
fn only_the_current_version_is_served() {
    assert_eq!(CURRENT_VERSION, 1);
    assert!(version_matches(1));
    assert!(!version_matches(0));
    assert!(!version_matches(2));
}

#[test]
fn host_calls_carry_their_texts() {
    assert!(matches!(prompt_enabled(), HostCall::PromptEnabled));
    match display_dialog("Title", "Message", "Yes", "No") {
        HostCall::DisplayDialog(d) => {
            assert_eq!((d.title.as_str(), d.message.as_str()), ("Title", "Message"));
            assert_eq!((d.ok.as_str(), d.cancel.as_str()), ("Yes", "No"));
        }
        other => panic!("expected a dialog, got {:?}", other),
    }
    assert!(matches!(log_error("broken"), HostCall::LogError(m) if m == "broken"));
}
