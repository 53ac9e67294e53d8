//! The Noise transport configuration: each side of a connection holds
//! the 32-byte pre-shared key that the XXpsk3 handshake injects at
//! position 3. The handshake itself is connection I/O and lives with
//! the serving loop, which reads the key from here.

use vstd::prelude::*;

verus! {

/// The pattern both sides run.
pub const NOISE_PARAMS: &'static str = "Noise_XXpsk3_25519_ChaChaPoly_BLAKE2s";

/// The accepting side of a Noise handshake: it holds the pre-shared key.
pub struct NoiseServer<'a> {
    secret: &'a [u8],
}

impl<'a> View for NoiseServer<'a> {
    type V = Seq<u8>;

    closed spec fn view(&self) -> Seq<u8> {
        self.secret@
    }
}

impl<'a> NoiseServer<'a> {
    pub fn new(secret: &'a [u8]) -> (r: Self)
        ensures
            r@ == secret@,
    {
        NoiseServer { secret }
    }

    /// The pre-shared key the handshake uses.
    pub fn secret(&self) -> (r: &'a [u8])
        ensures
            r@ == self@,
    {
        self.secret
    }
}

/// The connecting side of a Noise handshake: it holds the same
/// pre-shared key.
pub struct NoiseClient<'a> {
    secret: &'a [u8],
}

impl<'a> View for NoiseClient<'a> {
    type V = Seq<u8>;

    closed spec fn view(&self) -> Seq<u8> {
        self.secret@
    }
}

impl<'a> NoiseClient<'a> {
    pub fn new(secret: &'a [u8]) -> (r: Self)
        ensures
            r@ == secret@,
    {
        NoiseClient { secret }
    }

    /// The pre-shared key the handshake uses.
    pub fn secret(&self) -> (r: &'a [u8])
        ensures
            r@ == self@,
    {
        self.secret
    }
}

} // verus!
