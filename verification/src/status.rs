//! The status poll vocabulary: which read-only queries the background
//! loop can issue against the node, and how their replies are read.
//!
//! A poll loop outside this crate broadcasts a peek kind at a fixed
//! interval, forwards it to the node worker, and feeds a height reply
//! into the wallet actor's `update`. This module fixes the mapping
//! between peek kinds and their kernel command names, and the reading
//! of a reply.

use vstd::prelude::*;
use crate::kernel::KernelValue;
use crate::vault::Keycrypt;
use crate::wallet::Wallet;

verus! {

/// A read-only query against the live kernel.
#[derive(Debug, Clone, Copy, PartialEq, Eq, Structural)]
pub enum NockchainPeek {
    Height,
    HeavySummary,
    Transactions,
}

/// The kernel command name of a peek kind.
pub open spec fn peek_name_spec(p: NockchainPeek) -> Seq<char> {
    match p {
        NockchainPeek::Height => "height"@,
        NockchainPeek::HeavySummary => "heavy-summary"@,
        NockchainPeek::Transactions => "transactions"@,
    }
}

/// The command name sent to the kernel for a peek kind.
pub fn peek_command_name(p: NockchainPeek) -> (r: String)
    ensures
        r@ == peek_name_spec(p),
{
    match p {
        NockchainPeek::Height => String::from_str("height"),
        NockchainPeek::HeavySummary => String::from_str("heavy-summary"),
        NockchainPeek::Transactions => String::from_str("transactions"),
    }
}

/// The peek kind a command name denotes, if any; the inverse of
/// `peek_command_name`.
pub fn parse_peek_command(s: &str) -> (r: Option<NockchainPeek>)
    ensures
        match r {
            Some(p) => s@ == peek_name_spec(p),
            None => forall|p: NockchainPeek| s@ != peek_name_spec(p),
        },
{
    if str_eq_literal(s, "height") {
        Some(NockchainPeek::Height)
    } else if str_eq_literal(s, "heavy-summary") {
        Some(NockchainPeek::HeavySummary)
    } else if str_eq_literal(s, "transactions") {
        Some(NockchainPeek::Transactions)
    } else {
        assert forall|p: NockchainPeek| s@ != peek_name_spec(p) by {
        }
        None
    }
}

fn str_eq_literal(s: &str, lit: &str) -> (r: bool)
    ensures
        r == (s@ == lit@),
{
    let a = String::from_str(s);
    let b = String::from_str(lit);
    a.eq(&b)
}

/// A reply from the status driver: which peek it answers, and the
/// payload the kernel returned for it.
#[derive(Debug)]
pub struct NockchainStatus {
    pub command: NockchainPeek,
    pub value: KernelValue,
}

impl NockchainStatus {
    pub fn new(command: NockchainPeek, value: KernelValue) -> (r: Self)
        ensures
            r.command == command,
            r.value == value,
    {
        Self { command, value }
    }

    /// The peek this reply answers.
    pub fn command(&self) -> (r: &NockchainPeek)
        ensures
            r == self.command,
    {
        &self.command
    }

    /// Reads the reply as a block height. It must answer a height peek,
    /// its payload must be an atom, and the atom's number must fit.
    pub fn height(&self) -> (r: Result<u32, String>)
        ensures
            match r {
                Ok(h) => self.command is Height && (self.value matches KernelValue::Atom(b)
                    && h as nat == KernelValue::atom_nat(b@)),
                Err(e) => {
                    ||| !(self.command is Height) && e@ == "not a height command"@
                    ||| self.command is Height && !(self.value is Atom) && e@
                        == "invalid noun, not an atom"@
                    ||| self.command is Height && (self.value matches KernelValue::Atom(b)
                        && KernelValue::atom_nat(b@) > u32::MAX) && e@
                        == "invalid noun, not a valid u32"@
                },
            },
    {
        if !matches!(self.command, NockchainPeek::Height) {
            return Err(String::from_str("not a height command"));
        }
        match &self.value {
            KernelValue::Atom(bytes) => match crate::kernel::atom_to_u64(bytes) {
                Some(h) => {
                    if h <= u32::MAX as u64 {
                        Ok(h as u32)
                    } else {
                        Err(String::from_str("invalid noun, not a valid u32"))
                    }
                },
                None => Err(String::from_str("invalid noun, not a valid u32")),
            },
            _ => Err(String::from_str("invalid noun, not an atom")),
        }
    }
}

/// The application-level status reported to the front end: what the
/// vault, wallet and node layers currently hold.
#[derive(Debug)]
pub struct AeroeStatus {
    pub vault_exists: bool,
    pub vault_loaded: bool,
    pub master_node_running: bool,
    pub block_height: Option<u32>,
    pub num_miners: u64,
    pub wallets: Vec<String>,
    pub active_wallet: Option<String>,
}

/// Assembles the application status from the vault, the wallet actor
/// and the node worker's last status reply.
pub fn aeroe_status(
    vault: &Keycrypt,
    wallet: &Wallet,
    master_running: bool,
    num_workers: u64,
) -> (r: AeroeStatus)
    ensures
        r.vault_exists == (vault.stored_spec() is Some),
        r.vault_loaded == vault.loaded_spec(),
        r.master_node_running == master_running,
        r.block_height == wallet.height_spec(),
        r.num_miners == num_workers,
        r.wallets@.len() == vault.entries_spec().len(),
        forall|i: int|
            0 <= i < r.wallets@.len() ==> r.wallets@[i]@ == (#[trigger] vault.entries_spec()[
                i
            ]).name@,
        match r.active_wallet {
            Some(n) => wallet.name_spec() matches Some(m) && n@ == m@,
            None => wallet.name_spec() is None,
        },
{
    AeroeStatus {
        vault_exists: vault.vault_exists(),
        vault_loaded: vault.is_loaded(),
        master_node_running: master_running,
        block_height: wallet.get_block_height(),
        num_miners: num_workers,
        wallets: vault.get_wallets(),
        active_wallet: wallet.get_active_wallet(),
    }
}

} // verus!
