use vstd::prelude::*;

verus! {

/// The chains that the switchboard coordinates: the mainchain and its two sidechains.
#[derive(Clone, Copy, Debug, PartialEq, Eq, Structural, Hash)]
pub enum Chain {
    Main,
    Zcash,
    Ethereum,
}

/// The sidechains, each bound to a fixed slot on the mainchain.
#[derive(Clone, Copy, Debug, PartialEq, Eq, Structural, Hash)]
pub enum Sidechain {
    Zcash,
    Ethereum,
}

/// The lowercase tag under which a chain is shown.
pub open spec fn chain_name(c: Chain) -> Seq<char> {
    match c {
        Chain::Main => "main"@,
        Chain::Zcash => "zcash"@,
        Chain::Ethereum => "ethereum"@,
    }
}

/// The chain that a sidechain runs as.
pub open spec fn sidechain_chain(s: Sidechain) -> Chain {
    match s {
        Sidechain::Zcash => Chain::Zcash,
        Sidechain::Ethereum => Chain::Ethereum,
    }
}

/// The slot index of a sidechain on the mainchain.
pub open spec fn sidechain_slot(s: Sidechain) -> nat {
    match s {
        Sidechain::Zcash => 0,
        Sidechain::Ethereum => 1,
    }
}

impl Chain {
    /// The chain's lowercase tag.
    pub fn name(&self) -> (r: &'static str)
        ensures
            r@ == chain_name(*self),
    {
        match self {
            Chain::Main => "main",
            Chain::Zcash => "zcash",
            Chain::Ethereum => "ethereum",
        }
    }
}

impl Sidechain {
    /// The chain this sidechain runs as.
    pub fn chain(&self) -> (r: Chain)
        ensures
            r == sidechain_chain(*self),
            r != Chain::Main,
    {
        match self {
            Sidechain::Zcash => Chain::Zcash,
            Sidechain::Ethereum => Chain::Ethereum,
        }
    }

    /// The sidechain's slot index, used in deposits and activation.
    pub fn number(&self) -> (r: usize)
        ensures
            r as nat == sidechain_slot(*self),
    {
        match self {
            Sidechain::Zcash => 0,
            Sidechain::Ethereum => 1,
        }
    }

    /// The sidechain's name: that of its chain.
    pub fn name(&self) -> (r: &'static str)
        ensures
            r@ == chain_name(sidechain_chain(*self)),
    {
        self.chain().name()
    }
}

} // verus!
