use vstd::prelude::*;

verus! {

/// The classification carried by a [`SinkError`].
#[derive(Clone, Copy, Debug, PartialEq, Eq, Structural)]
pub enum ErrorKind {
    /// A failure the sink reported without a more precise kind.
    Other,
    /// A write made no progress although bytes were left to write.
    WriteZero,
}

/// A failure of a sink: a kind and the sink's own message, kept verbatim.
#[derive(Debug)]
pub struct SinkError {
    pub kind: ErrorKind,
    pub message: String,
}

impl View for SinkError {
    type V = (ErrorKind, Seq<char>);

    open spec fn view(&self) -> (ErrorKind, Seq<char>) {
        (self.kind, self.message@)
    }
}

impl SinkError {
    pub fn new(kind: ErrorKind, message: &str) -> (r: SinkError)
        ensures
            r@ == (kind, message@),
    {
        SinkError { kind, message: message.to_string() }
    }

    pub fn kind(&self) -> (r: ErrorKind)
        ensures
            r == self.kind,
    {
        self.kind
    }

    /// The message exactly as the sink produced it.
    pub fn message(&self) -> (r: &str)
        ensures
            r@ == self.message@,
    {
        self.message.as_str()
    }

    /// An equal copy of this error.
    pub fn duplicate(&self) -> (r: SinkError)
        ensures
            r == *self,
    {
        SinkError { kind: self.kind, message: self.message.clone() }
    }
}

/// Holds the first failure observed, and never lets it go.
#[derive(Debug)]
pub struct ErrorSlot {
    first: Option<SinkError>,
}

impl View for ErrorSlot {
    type V = Option<(ErrorKind, Seq<char>)>;

    closed spec fn view(&self) -> Option<(ErrorKind, Seq<char>)> {
        match self.first {
            Some(e) => Some(e@),
            None => None,
        }
    }
}

impl ErrorSlot {
    pub fn new() -> (r: ErrorSlot)
        ensures
            r@ is None,
    {
        ErrorSlot { first: None }
    }

    /// Keeps `e` if nothing was recorded yet; otherwise the earlier failure stays.
    pub fn record(&mut self, e: SinkError)
        ensures
            final(self)@ == (if old(self)@ is Some { old(self)@ } else { Some(e@) }),
    {
        if self.first.is_none() {
            self.first = Some(e);
        }
    }

    pub fn is_set(&self) -> (r: bool)
        ensures
            r == self@ is Some,
    {
        self.first.is_some()
    }

    /// A copy of the recorded failure, if there is one.
    pub fn get(&self) -> (r: Option<SinkError>)
        ensures
            match r {
                Some(e) => self@ == Some(e@),
                None => self@ is None,
            },
    {
        match &self.first {
            Some(e) => Some(e.duplicate()),
            None => None,
        }
    }
}

} // verus!
