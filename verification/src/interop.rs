//! Values of the boundary to the host: handles to what the host owns, and
//! the calls that the host is asked to make.
//!
//! A handle is a number that the host gave out; zero is the one handle that
//! names nothing. Taking a handle out of its place leaves the invalid handle
//! behind, so that what the host owns is released once.

use std::marker::PhantomData;
use vstd::prelude::*;

verus! {

/// The version of the boundary that this library speaks.
pub const CURRENT_VERSION: u64 = 1;

/// Whether a host that speaks `version` of the boundary can be served.
pub fn version_matches(version: u64) -> (r: bool)
    ensures
        r == (version == CURRENT_VERSION),
{
    version == CURRENT_VERSION
}

/// A handle to an object that the host owns.
#[derive(Debug)]
pub struct CsHandle(usize);

/// A handle that is lent out for as long as its owner lives.
#[derive(Copy, Clone, Debug)]
pub struct CsHandleRef<'a>(usize, PhantomData<&'a ()>);

impl CsHandle {
    /// The number behind the handle.
    pub closed spec fn raw(&self) -> usize {
        self.0
    }

    /// The handle with the number `raw`.
    pub fn from_raw(raw: usize) -> (h: Self)
        ensures
            h.raw() == raw,
    {
        CsHandle(raw)
    }

    /// The number behind the handle.
    pub fn to_raw(&self) -> (r: usize)
        ensures
            r == self.raw(),
    {
        self.0
    }

    /// The handle that names nothing.
    pub fn invalid() -> (h: Self)
        ensures
            h.raw() == 0,
    {
        CsHandle(0)
    }

    /// Whether the handle names nothing.
    pub fn is_invalid(&self) -> (b: bool)
        ensures
            b == (self.raw() == 0),
    {
        self.0 == 0
    }

    /// The handle, lent out.
    pub fn as_ref(&self) -> (r: CsHandleRef<'_>)
        ensures
            r.raw() == self.raw(),
    {
        CsHandleRef(self.0, PhantomData)
    }

    /// Takes the handle out and leaves the invalid handle in its place.
    pub fn take(&mut self) -> (h: CsHandle)
        ensures
            h.raw() == old(self).raw(),
            final(self).raw() == 0,
    {
        let raw = self.0;
        self.0 = 0;
        CsHandle(raw)
    }
}

impl<'a> CsHandleRef<'a> {
    /// The number behind the handle.
    pub closed spec fn raw(&self) -> usize {
        self.0
    }

    /// The number behind the handle.
    pub fn to_raw(&self) -> (r: usize)
        ensures
            r == self.raw(),
    {
        self.0
    }
}

/// A run of values of type `T` that the host owns: the handle that keeps it
/// alive, where it starts, and how many values it holds.
#[derive(Debug)]
pub struct CsSlice<T> {
    handle: CsHandle,
    ptr: usize,
    len: usize,
    _phantom: PhantomData<T>,
}

impl<T> CsSlice<T> {
    /// The number behind the handle of the run.
    pub closed spec fn raw(&self) -> usize {
        self.handle.raw()
    }

    /// Where the run starts.
    pub closed spec fn start(&self) -> usize {
        self.ptr
    }

    /// How many values the run holds.
    pub closed spec fn count(&self) -> usize {
        self.len
    }

    /// The run that `handle` keeps alive.
    pub fn from_raw(handle: CsHandle, ptr: usize, len: usize) -> (s: Self)
        ensures
            s.raw() == handle.raw(),
            s.start() == ptr,
            s.count() == len,
    {
        CsSlice { handle, ptr, len, _phantom: PhantomData }
    }

    /// The run that names nothing: an invalid handle and no values.
    pub fn invalid() -> (s: Self)
        ensures
            s.raw() == 0,
            s.start() == 0,
            s.count() == 0,
    {
        CsSlice { handle: CsHandle::invalid(), ptr: 0, len: 0, _phantom: PhantomData }
    }

    /// Whether the run names nothing.
    pub fn is_invalid(&self) -> (b: bool)
        ensures
            b == (self.raw() == 0),
    {
        self.handle.is_invalid()
    }

    /// Takes the run out and leaves the invalid run in its place.
    pub fn take(&mut self) -> (s: CsSlice<T>)
        ensures
            s.raw() == old(self).raw(),
            s.start() == old(self).start(),
            s.count() == old(self).count(),
            final(self).raw() == 0,
            final(self).start() == 0,
            final(self).count() == 0,
    {
        let handle = self.handle.take();
        let taken = CsSlice { handle, ptr: self.ptr, len: self.len, _phantom: PhantomData };
        self.ptr = 0;
        self.len = 0;
        taken
    }

    /// Where the run starts.
    pub fn ptr(&self) -> (r: usize)
        ensures
            r == self.start(),
    {
        self.ptr
    }

    /// How many values the run holds.
    pub fn len(&self) -> (r: usize)
        ensures
            r == self.count(),
    {
        self.len
    }
}

/// Text that the host owns.
#[derive(Debug)]
pub struct CsStr {
    slice: CsSlice<u8>,
}

impl CsStr {
    /// The number behind the handle of the text.
    pub closed spec fn raw(&self) -> usize {
        self.slice.raw()
    }

    /// The text in the run `slice`.
    pub fn from_slice(slice: CsSlice<u8>) -> (s: Self)
        ensures
            s.raw() == slice.raw(),
    {
        CsStr { slice }
    }

    /// The text that names nothing.
    pub fn invalid() -> (s: Self)
        ensures
            s.raw() == 0,
    {
        CsStr { slice: CsSlice::invalid() }
    }

    /// Whether the text names nothing.
    pub fn is_invalid(&self) -> (b: bool)
        ensures
            b == (self.raw() == 0),
    {
        self.slice.is_invalid()
    }

    /// The run that holds the text.
    pub fn slice(&self) -> (r: &CsSlice<u8>)
        ensures
            r.raw() == self.raw(),
    {
        &self.slice
    }
}

/// An error that the host reports: its text, and its number.
#[derive(Debug)]
pub struct CsErr {
    pub str: CsStr,
    pub as_id: i32,
}

impl CsErr {
    /// No error: a text that names nothing, and the number zero.
    pub fn invalid() -> (e: Self)
        ensures
            e.str.raw() == 0,
            e.as_id == 0,
    {
        CsErr { str: CsStr::invalid(), as_id: 0 }
    }

    /// Whether this is no error.
    pub fn is_invalid(&self) -> (b: bool)
        ensures
            b == (self.str.raw() == 0),
    {
        self.str.is_invalid()
    }
}

/// A dialog that the host is to show: its title and message, and the texts
/// of the button that accepts and of the button that declines.
#[derive(Debug)]
pub struct Dialog {
    pub title: String,
    pub message: String,
    pub ok: String,
    pub cancel: String,
}

/// What a [`Dialog`] stands for.
pub struct DialogView {
    pub title: Seq<char>,
    pub message: Seq<char>,
    pub ok: Seq<char>,
    pub cancel: Seq<char>,
}

impl View for Dialog {
    type V = DialogView;

    open spec fn view(&self) -> DialogView {
        DialogView { title: self.title@, message: self.message@, ok: self.ok@, cancel: self.cancel@ }
    }
}

/// A call that the host is asked to make.
#[derive(Debug)]
pub enum HostCall {
    /// Asks whether the user is to confirm what will be done.
    PromptEnabled,
    /// Shows a dialog and hands back whether the user accepted.
    DisplayDialog(Dialog),
    /// Writes a message to the host's log of errors.
    LogError(String),
}

/// What a [`HostCall`] stands for.
pub enum HostCallView {
    PromptEnabled,
    DisplayDialog(DialogView),
    LogError(Seq<char>),
}

impl View for HostCall {
    type V = HostCallView;

    open spec fn view(&self) -> HostCallView {
        match self {
            HostCall::PromptEnabled => HostCallView::PromptEnabled,
            HostCall::DisplayDialog(dialog) => HostCallView::DisplayDialog(dialog@),
            HostCall::LogError(message) => HostCallView::LogError(message@),
        }
    }
}

/// The call that asks the host whether the user is to confirm what will be
/// done.
pub fn prompt_enabled() -> (call: HostCall)
    ensures
        call@ == HostCallView::PromptEnabled,
{
    HostCall::PromptEnabled
}

/// The call that shows a dialog with the given texts.
pub fn display_dialog(title: &str, message: &str, ok: &str, cancel: &str) -> (call: HostCall)
    ensures
        call@ == HostCallView::DisplayDialog(
            DialogView { title: title@, message: message@, ok: ok@, cancel: cancel@ },
        ),
{
    HostCall::DisplayDialog(
        Dialog {
            title: title.to_owned(),
            message: message.to_owned(),
            ok: ok.to_owned(),
            cancel: cancel.to_owned(),
        },
    )
}

/// The call that writes `message` to the host's log of errors.
pub fn log_error(message: &str) -> (call: HostCall)
    ensures
        call@ == HostCallView::LogError(message@),
{
    HostCall::LogError(message.to_owned())
}

} // verus!
