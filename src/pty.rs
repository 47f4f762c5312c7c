use vstd::prelude::*;

verus! {

/// Dimensions of a terminal window: character cells and pixels.
#[derive(Clone, Copy, Debug, PartialEq, Eq, Structural)]
pub struct PtySize {
    pub rows: u16,
    pub cols: u16,
    pub pixel_width: u16,
    pub pixel_height: u16,
}

impl PtySize {
    pub fn new(rows: u16, cols: u16, pixel_width: u16, pixel_height: u16) -> (r: PtySize)
        ensures
            r.rows == rows,
            r.cols == cols,
            r.pixel_width == pixel_width,
            r.pixel_height == pixel_height,
    {
        PtySize { rows, cols, pixel_width, pixel_height }
    }
}

/// Why a request for the session's write handle failed.
pub enum WriterError<E> {
    /// The session's one write handle was handed out before.
    AlreadyTaken,
    /// Duplicating the controller descriptor failed.
    Os(E),
}

/// What a request for the write handle returns once the duplicate has been
/// attempted.
pub open spec fn granted<H, E>(d: Result<H, E>) -> Result<H, WriterError<E>> {
    match d {
        Ok(h) => Ok(h),
        Err(e) => Err(WriterError::Os(e)),
    }
}

/// Hands out a session's write handle at most once, so that there is one
/// writable path to the terminal and write order stays well defined.
pub struct WriterGate {
    taken: bool,
}

impl WriterGate {
    /// Whether the write handle has been handed out.
    pub closed spec fn is_taken(&self) -> bool {
        self.taken
    }

    pub fn new() -> (r: WriterGate)
        ensures
            !r.is_taken(),
    {
        WriterGate { taken: false }
    }

    /// Whether the write handle has been handed out.
    pub fn writer_taken(&self) -> (r: bool)
        ensures
            r == self.is_taken(),
    {
        self.taken
    }

    /// Asks for the write handle, which `duplicate` makes. Until a handle has
    /// been issued, a handle from `duplicate` is issued to the caller, and an
    /// error from it is returned with nothing issued. Once a handle has been
    /// issued, the request is refused with `AlreadyTaken` and `duplicate` is
    /// not called: the one handle in use stays the only one.
    pub fn take_writer<H, E, F: FnOnce() -> Result<H, E>>(&mut self, duplicate: F) -> (r: Result<
        H,
        WriterError<E>,
    >)
        requires
            !old(self).is_taken() ==> duplicate.requires(()),
        ensures
            old(self).is_taken() ==> r is Err && r->Err_0 is AlreadyTaken,
            !old(self).is_taken() ==> exists|d: Result<H, E>|
                duplicate.ensures((), d) && r == granted(d),
            final(self).is_taken() == (old(self).is_taken() || r is Ok),
    {
        if self.taken {
            Err(WriterError::AlreadyTaken)
        } else {
            let d = duplicate();
            let ghost made = d;
            let r = match d {
                Ok(h) => {
                    self.taken = true;
                    Ok(h)
                },
                Err(e) => Err(WriterError::Os(e)),
            };
            assert(duplicate.ensures((), made) && r == granted(made));
            r
        }
    }
}

} // verus!
