//! Classification of a transport fault by the chain of causes that it wraps.
//!
//! A fault is described layer by layer, outermost first. A layer is an I/O
//! error, an HTTP/2 error (which may carry an I/O error of its own), or an
//! error that says nothing about I/O. The walk stops at the first layer that
//! yields an I/O error.
use vstd::prelude::*;

verus! {

/// The kind of an I/O error, as far as the call's logic tells kinds apart.
#[derive(Clone, Copy, Debug, PartialEq, Eq, Structural)]
pub enum IoKind {
    /// The peer closed the connection while data was being written to it.
    BrokenPipe,
    /// Any other kind of I/O error.
    Other,
}

/// One layer of a fault's chain of causes.
#[derive(Clone, Copy, Debug, PartialEq, Eq, Structural)]
pub enum CauseLayer {
    /// An I/O error of the given kind.
    Io(IoKind),
    /// An HTTP/2 error, with the kind of the I/O error it carries, if any.
    H2(Option<IoKind>),
    /// An error that carries no I/O error.
    Opaque,
}

/// The I/O error that a single layer yields, if any.
pub open spec fn layer_io(layer: CauseLayer) -> Option<IoKind> {
    match layer {
        CauseLayer::Io(k) => Some(k),
        CauseLayer::H2(io) => io,
        CauseLayer::Opaque => None,
    }
}

/// The kind of the first I/O error in a chain of causes.
pub open spec fn first_io(chain: Seq<CauseLayer>) -> Option<IoKind>
    decreases chain.len(),
{
    if chain.len() == 0 {
        None
    } else if layer_io(chain[0]) is Some {
        layer_io(chain[0])
    } else {
        first_io(chain.drop_first())
    }
}

/// Whether a chain of causes marks a peer that went away abruptly.
pub open spec fn is_disconnect(chain: Seq<CauseLayer>) -> bool {
    first_io(chain) == Some(IoKind::BrokenPipe)
}

/// Walks the chain of causes, outermost first, and returns the kind of the
/// first I/O error found in it.
pub fn match_for_io_error(chain: &Vec<CauseLayer>) -> (r: Option<IoKind>)
    ensures
        r == first_io(chain@),
{
    let mut i: usize = 0;
    assert(chain@.subrange(0, chain@.len() as int) =~= chain@);
    while i < chain.len()
        invariant
            i <= chain@.len(),
            first_io(chain@) == first_io(chain@.subrange(i as int, chain@.len() as int)),
        decreases chain@.len() - i,
    {
        let rest = Ghost(chain@.subrange(i as int, chain@.len() as int));
        assert(rest@.drop_first() =~= chain@.subrange(i + 1, chain@.len() as int));
        let found = match chain[i] {
            CauseLayer::Io(k) => Some(k),
            CauseLayer::H2(io) => io,
            CauseLayer::Opaque => None,
        };
        if found.is_some() {
            return found;
        }
        i = i + 1;
    }
    None
}

/// Whether a fault with this chain of causes is a broken pipe: the peer
/// disconnected in an unexpected way.
pub fn is_broken_pipe(chain: &Vec<CauseLayer>) -> (r: bool)
    ensures
        r == is_disconnect(chain@),
{
    match match_for_io_error(chain) {
        Some(IoKind::BrokenPipe) => true,
        _ => false,
    }
}

} // verus!
