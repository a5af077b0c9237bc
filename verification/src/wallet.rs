//! The wallet actor: balance and sync state, kernel request
//! construction, coin selection and the transaction draft lifecycle.
//!
//! The actor owns the wallet's mutable state. Every kernel round trip
//! splits into a guard step here (check the state, build the command to
//! send) and an apply step here (fold the kernel's reply back into the
//! state); the channel in between lives outside this crate. Draft
//! records move strictly forward through `Draft`, `Signed` and
//! `Pending`, and never regress.

use vstd::prelude::*;
use vstd::multiset::Multiset;
use vstd::utf8::{valid_utf8, decode_utf8};
use crate::kernel::{KernelValue, peek_payload, atom_to_u64, strip_nul, strip_nul_bytes, until_nul, atom_text_bytes, split_ws, split_ws_bytes, bytes_to_string};
use crate::strutil::{dec_str, dec_val, all_digits, str_chars, parse_dec_u64, u64_to_dec, join_spec, join_strings, replace_spec, replace_all, lemma_map_values_push};

verus! {

/// One recipient and the amount they are to receive.
#[derive(Debug)]
pub struct TransactionEntry {
    pub recipient: String,
    pub amount: u64,
}

/// Lifecycle stage of a draft: created, signed, or broadcast (pending
/// confirmation). The order is strict and never regresses.
#[derive(Debug, Clone, Copy, PartialEq, Eq, Structural)]
pub enum NockchainTxStatus {
    Draft,
    Signed,
    Pending,
}

/// The bookkeeping record of one draft transaction.
#[derive(Debug)]
pub struct NockchainTxMeta {
    pub draft_id: String,
    pub transactions: Vec<TransactionEntry>,
    pub fee: u64,
    pub created_at: String,
    pub signed_at: Option<String>,
    pub broadcasted_at: Option<String>,
    pub status: NockchainTxStatus,
}

/// A draft with the disk location of its current artifact (unsigned at
/// first, the signed file after signing).
#[derive(Debug)]
pub struct NockchainTx {
    pub metadata: NockchainTxMeta,
    pub location: String,
}

/// A spendable output reported by the kernel. `assets` is the amount as
/// a decimal string, possibly with `.` group separators.
#[derive(Debug)]
pub struct Note {
    pub first: String,
    pub last: String,
    pub assets: String,
}

/// A command for the wallet kernel worker.
#[derive(Debug)]
pub enum Commands {
    PeekSeedphrase,
    PeekMasterPubkey,
    PeekBalance { pubkey: String },
    PeekNotes { pubkey: String },
    UpdateState,
    AeroeSpend { names: String, recipients: String, gifts: String, fee: u64, file_path: String },
    SignAeroeTx { draft: String, index: Option<u64>, file_path: String },
    MakeTx { draft: String },
    Keygen,
    GenMasterPrivkey { seedphrase: String },
}

/// How the kernel dispatcher runs one command: a peek is a read-only
/// query against a fresh kernel; a poke also wires the node socket and
/// the file drivers before running.
#[derive(Debug, Clone, Copy, PartialEq, Eq, Structural)]
pub enum CommandKind {
    Peek,
    Poke,
}

/// The kernel-facing dispatcher. It owns no state: each command boots a
/// fresh kernel, runs it, and tears it down; booting and running live
/// with the caller, the classification of commands lives here.
#[derive(Debug)]
pub struct WalletApp {
}

impl WalletApp {
    /// Whether a command is executed as a peek or as a poke.
    pub fn command_kind(command: &Commands) -> (r: CommandKind)
        ensures
            r is Peek <==> (command is PeekSeedphrase || command is PeekMasterPubkey
                || command is PeekBalance || command is PeekNotes),
    {
        match command {
            Commands::PeekSeedphrase => CommandKind::Peek,
            Commands::PeekMasterPubkey => CommandKind::Peek,
            Commands::PeekBalance { .. } => CommandKind::Peek,
            Commands::PeekNotes { .. } => CommandKind::Peek,
            Commands::UpdateState => CommandKind::Poke,
            Commands::AeroeSpend { .. } => CommandKind::Poke,
            Commands::SignAeroeTx { .. } => CommandKind::Poke,
            Commands::MakeTx { .. } => CommandKind::Poke,
            Commands::Keygen => CommandKind::Poke,
            Commands::GenMasterPrivkey { .. } => CommandKind::Poke,
        }
    }
}

/// What a height notification asks of the caller.
#[derive(Debug, Clone, Copy, PartialEq, Eq, Structural)]
pub enum SyncDecision {
    /// The height is the one already known: nothing to do.
    Unchanged,
    /// The height was recorded, but the last resync is too recent:
    /// no kernel work now.
    Deferred,
    /// The height was recorded and a resync is due: the caller sends
    /// `UpdateState`, marks the sync, and refreshes the balance.
    Resync,
}

/// Minimum quiet time between two kernel resyncs, in milliseconds.
pub const SYNC_QUIESCENCE_MS: u64 = 20000;

/// The decision taken for a height notification `new_h` at time `now`,
/// given the known height and the time of the last resync.
pub open spec fn update_decision(
    h_old: Option<u32>,
    last: Option<u64>,
    new_h: u32,
    now: u64,
) -> SyncDecision {
    if h_old == Some(new_h) {
        SyncDecision::Unchanged
    } else if last matches Some(t) && now - t < SYNC_QUIESCENCE_MS {
        SyncDecision::Deferred
    } else {
        SyncDecision::Resync
    }
}

/// Updating twice with the same height does nothing the second time:
/// once `h` is recorded, the decision for `h` is `Unchanged`, whatever
/// the sync clock says.
pub proof fn lemma_idempotent_update(h: u32, last: Option<u64>, now: u64)
    ensures
        update_decision(Some(h), last, h, now) is Unchanged,
{
}

/// Two height updates within one quiescence window resync at most once:
/// after a resync was recorded at `t1`, any update before `t1` plus the
/// window is not a `Resync`, whatever heights are involved.
pub proof fn lemma_throttled_resync(h: Option<u32>, t1: u64, new_h: u32, t2: u64)
    requires
        t1 <= t2,
        t2 - t1 < SYNC_QUIESCENCE_MS,
    ensures
        !(update_decision(h, Some(t1), new_h, t2) is Resync),
{
}

/// The wallet actor state.
#[derive(Debug)]
pub struct Wallet {
    draft_dir: String,
    wallet_name: Option<String>,
    master_pubkey: Option<String>,
    balance: Option<u64>,
    block_height: Option<u32>,
    last_sync: Option<u64>,
    drafts: Vec<NockchainTx>,
}

impl Wallet {
    /// The draft directory, for contracts.
    pub closed spec fn draft_dir_spec(&self) -> Seq<char> {
        self.draft_dir@
    }

    /// The active wallet name, for contracts.
    pub closed spec fn name_spec(&self) -> Option<String> {
        self.wallet_name
    }

    /// The master public key, for contracts.
    pub closed spec fn pubkey_spec(&self) -> Option<String> {
        self.master_pubkey
    }

    /// The cached balance, for contracts.
    pub closed spec fn balance_spec(&self) -> Option<u64> {
        self.balance
    }

    /// The known block height, for contracts.
    pub closed spec fn height_spec(&self) -> Option<u32> {
        self.block_height
    }

    /// The time of the last resync, for contracts.
    pub closed spec fn last_sync_spec(&self) -> Option<u64> {
        self.last_sync
    }

    /// The draft records, for contracts.
    pub closed spec fn drafts_spec(&self) -> Seq<NockchainTx> {
        self.drafts@
    }

    /// No two drafts share an id.
    pub open spec fn wf(&self) -> bool {
        forall|i: int, j: int|
            0 <= i < j < self.drafts_spec().len() ==> self.drafts_spec()[i].metadata.draft_id@
                != self.drafts_spec()[j].metadata.draft_id@
    }

    /// A fresh actor: nothing loaded, no drafts.
    pub fn new(draft_dir: String) -> (r: Self)
        ensures
            r.wf(),
            r.draft_dir_spec() == draft_dir@,
            r.name_spec() is None,
            r.pubkey_spec() is None,
            r.balance_spec() is None,
            r.height_spec() is None,
            r.last_sync_spec() is None,
            r.drafts_spec() == Seq::<NockchainTx>::empty(),
    {
        Wallet {
            draft_dir,
            wallet_name: None,
            master_pubkey: None,
            balance: None,
            block_height: None,
            last_sync: None,
            drafts: Vec::new(),
        }
    }

    /// The currently loaded wallet's name, if any.
    pub fn get_active_wallet(&self) -> (r: Option<String>)
        ensures
            match r {
                Some(n) => self.name_spec() matches Some(m) && n@ == m@,
                None => self.name_spec() is None,
            },
    {
        match &self.wallet_name {
            Some(n) => Some(n.clone()),
            None => None,
        }
    }

    /// The last height the actor was told about.
    pub fn get_block_height(&self) -> (r: Option<u32>)
        ensures
            r == self.height_spec(),
    {
        self.block_height
    }

    /// Rejects a caller whose asserted wallet name is not the loaded
    /// one; every wallet-name-scoped operation goes through this first.
    pub fn check_wallet_name(&self, wallet_name: &String) -> (r: Result<(), String>)
        ensures
            match r {
                Ok(_) => self.name_spec() matches Some(n) && n@ == wallet_name@,
                Err(e) => !(self.name_spec() matches Some(n) && n@ == wallet_name@) && e@
                    == "wallet name mismatch"@,
            },
    {
        match &self.wallet_name {
            Some(n) => {
                if n.eq(wallet_name) {
                    Ok(())
                } else {
                    Err(String::from_str("wallet name mismatch"))
                }
            },
            None => Err(String::from_str("wallet name mismatch")),
        }
    }

    /// Records the wallet name a load begins with. The key, sync and
    /// balance fields keep their old values until the load's kernel
    /// steps complete; a failed load thus leaves the name set but the
    /// rest unset, which callers must re-check.
    pub fn set_wallet_name(&mut self, wallet_name: String)
        ensures
            final(self).name_spec() == Some(wallet_name),
            final(self).pubkey_spec() == old(self).pubkey_spec(),
            final(self).balance_spec() == old(self).balance_spec(),
            final(self).height_spec() == old(self).height_spec(),
            final(self).last_sync_spec() == old(self).last_sync_spec(),
            final(self).drafts_spec() == old(self).drafts_spec(),
            final(self).draft_dir_spec() == old(self).draft_dir_spec(),
            final(self).wf() == old(self).wf(),
    {
        self.wallet_name = Some(wallet_name);
    }

    /// Folds a fetched master public key into the state.
    pub fn apply_master_pubkey(&mut self, pubkey: String)
        ensures
            final(self).pubkey_spec() == Some(pubkey),
            final(self).name_spec() == old(self).name_spec(),
            final(self).balance_spec() == old(self).balance_spec(),
            final(self).height_spec() == old(self).height_spec(),
            final(self).last_sync_spec() == old(self).last_sync_spec(),
            final(self).drafts_spec() == old(self).drafts_spec(),
            final(self).draft_dir_spec() == old(self).draft_dir_spec(),
            final(self).wf() == old(self).wf(),
    {
        self.master_pubkey = Some(pubkey);
    }

    /// Records that a kernel resync completed now.
    pub fn mark_synced(&mut self, now_ms: u64)
        ensures
            final(self).last_sync_spec() == Some(now_ms),
            final(self).name_spec() == old(self).name_spec(),
            final(self).pubkey_spec() == old(self).pubkey_spec(),
            final(self).balance_spec() == old(self).balance_spec(),
            final(self).height_spec() == old(self).height_spec(),
            final(self).drafts_spec() == old(self).drafts_spec(),
            final(self).draft_dir_spec() == old(self).draft_dir_spec(),
            final(self).wf() == old(self).wf(),
    {
        self.last_sync = Some(now_ms);
    }

    /// Folds a fetched balance into the state.
    pub fn set_balance(&mut self, balance: u64)
        ensures
            final(self).balance_spec() == Some(balance),
            final(self).name_spec() == old(self).name_spec(),
            final(self).pubkey_spec() == old(self).pubkey_spec(),
            final(self).height_spec() == old(self).height_spec(),
            final(self).last_sync_spec() == old(self).last_sync_spec(),
            final(self).drafts_spec() == old(self).drafts_spec(),
            final(self).draft_dir_spec() == old(self).draft_dir_spec(),
            final(self).wf() == old(self).wf(),
    {
        self.balance = Some(balance);
    }

    /// The cached balance; a wallet must have completed a load first.
    pub fn get_balance(&self) -> (r: Result<u64, String>)
        ensures
            match r {
                Ok(b) => self.balance_spec() == Some(b),
                Err(e) => self.balance_spec() is None && e@ == "balance is not set"@,
            },
    {
        match self.balance {
            Some(b) => Ok(b),
            None => Err(String::from_str("balance is not set")),
        }
    }

    /// The master public key; a wallet must have completed a load first.
    pub fn get_master_pubkey(&self) -> (r: Result<String, String>)
        ensures
            match r {
                Ok(p) => self.pubkey_spec() matches Some(q) && p@ == q@,
                Err(e) => self.pubkey_spec() is None && e@ == "master pubkey is not set"@,
            },
    {
        match &self.master_pubkey {
            Some(p) => Ok(p.clone()),
            None => Err(String::from_str("master pubkey is not set")),
        }
    }

    /// Takes note of a height notification and decides whether to
    /// resync. Identical notifications are ignored; different heights
    /// are recorded, but a resync is only called for when none happened
    /// within the quiescence window (`update_decision` is the rule).
    /// The caller's clock must not run backwards relative to the
    /// recorded sync time.
    pub fn update(&mut self, new_height: u32, now_ms: u64) -> (r: SyncDecision)
        requires
            old(self).last_sync_spec() matches Some(t) ==> t <= now_ms,
        ensures
            r == update_decision(
                old(self).height_spec(),
                old(self).last_sync_spec(),
                new_height,
                now_ms,
            ),
            r is Unchanged ==> *final(self) == *old(self),
            !(r is Unchanged) ==> final(self).height_spec() == Some(new_height),
            final(self).name_spec() == old(self).name_spec(),
            final(self).pubkey_spec() == old(self).pubkey_spec(),
            final(self).balance_spec() == old(self).balance_spec(),
            final(self).last_sync_spec() == old(self).last_sync_spec(),
            final(self).drafts_spec() == old(self).drafts_spec(),
            final(self).draft_dir_spec() == old(self).draft_dir_spec(),
            final(self).wf() == old(self).wf(),
    {
        match self.block_height {
            Some(h) if h == new_height => {
                return SyncDecision::Unchanged;
            },
            _ => {},
        }
        self.block_height = Some(new_height);
        match self.last_sync {
            Some(t) => {
                if now_ms - t < SYNC_QUIESCENCE_MS {
                    SyncDecision::Deferred
                } else {
                    SyncDecision::Resync
                }
            },
            None => SyncDecision::Resync,
        }
    }

    /// The request for a kernel state resync; only a loaded wallet may
    /// ask for one.
    pub fn update_state_request(&self) -> (r: Result<Commands, String>)
        ensures
            match r {
                Ok(c) => self.name_spec() is Some && c is UpdateState,
                Err(e) => self.name_spec() is None && e@ == "wallet is not loaded"@,
            },
    {
        if self.wallet_name.is_some() {
            Ok(Commands::UpdateState)
        } else {
            Err(String::from_str("wallet is not loaded"))
        }
    }

    /// The request that fetches the master public key.
    pub fn peek_master_pubkey_request(&self) -> (r: Result<Commands, String>)
        ensures
            match r {
                Ok(c) => self.name_spec() is Some && c is PeekMasterPubkey,
                Err(e) => self.name_spec() is None && e@ == "wallet is not loaded"@,
            },
    {
        if self.wallet_name.is_some() {
            Ok(Commands::PeekMasterPubkey)
        } else {
            Err(String::from_str("wallet is not loaded"))
        }
    }

    /// The request that fetches the balance of the loaded wallet's key.
    pub fn peek_balance_request(&self) -> (r: Result<Commands, String>)
        ensures
            match r {
                Ok(c) => self.name_spec() is Some && (c matches Commands::PeekBalance { pubkey }
                    && (self.pubkey_spec() matches Some(p) && pubkey@ == p@)),
                Err(e) => {
                    ||| self.name_spec() is None && e@ == "wallet is not loaded"@
                    ||| self.name_spec() is Some && self.pubkey_spec() is None && e@
                        == "master pubkey is not set"@
                },
            },
    {
        if self.wallet_name.is_none() {
            return Err(String::from_str("wallet is not loaded"));
        }
        let pubkey = self.get_master_pubkey()?;
        Ok(Commands::PeekBalance { pubkey })
    }

    /// The request that fetches the spendable notes of the loaded
    /// wallet's key.
    pub fn peek_notes_request(&self) -> (r: Result<Commands, String>)
        ensures
            match r {
                Ok(c) => (c matches Commands::PeekNotes { pubkey } && (self.pubkey_spec()
                    matches Some(p) && pubkey@ == p@)),
                Err(e) => self.pubkey_spec() is None && e@ == "master pubkey is not set"@,
            },
    {
        let pubkey = self.get_master_pubkey()?;
        Ok(Commands::PeekNotes { pubkey })
    }

    /// The request that fetches the seed phrase.
    pub fn peek_seedphrase_request(&self) -> (r: Commands)
        ensures
            r is PeekSeedphrase,
    {
        Commands::PeekSeedphrase
    }

    /// The request that generates a fresh key pair in the kernel.
    pub fn keygen_request(&self) -> (r: Commands)
        ensures
            r is Keygen,
    {
        Commands::Keygen
    }

    /// The request that derives the master private key from a seed
    /// phrase.
    pub fn gen_master_privkey_request(&self, seedphrase: String) -> (r: Commands)
        ensures
            r matches Commands::GenMasterPrivkey { seedphrase: s } && s == seedphrase,
    {
        Commands::GenMasterPrivkey { seedphrase }
    }
}

/// A note whose amount string parsed, paired with its numeric value.
#[derive(Debug)]
pub struct NoteVal {
    pub value: u64,
    pub note: Note,
}

/// `s` with every `.` group separator removed.
pub open spec fn strip_dots(s: Seq<char>) -> Seq<char>
    decreases s.len(),
{
    if s.len() == 0 {
        s
    } else if s[0] == '.' {
        strip_dots(s.drop_first())
    } else {
        seq![s[0]] + strip_dots(s.drop_first())
    }
}

/// The numeric value an `assets` string denotes: its digits with group
/// separators removed, read in base ten; `None` when anything else
/// appears or the value does not fit.
pub open spec fn asset_value(s: Seq<char>) -> Option<u64> {
    let d = strip_dots(s);
    if d.len() > 0 && all_digits(d) && dec_val(d) <= u64::MAX {
        Some(dec_val(d) as u64)
    } else {
        None
    }
}

proof fn lemma_strip_dots_unfold(s: Seq<char>, i: int)
    requires
        0 <= i < s.len(),
    ensures
        s[i] == '.' ==> strip_dots(s.skip(i)) == strip_dots(s.skip(i + 1)),
        s[i] != '.' ==> strip_dots(s.skip(i)) == seq![s[i]] + strip_dots(s.skip(i + 1)),
{
    assert(s.skip(i)[0] == s[i]);
    assert(s.skip(i).drop_first() =~= s.skip(i + 1));
}

/// Parses an amount string.
pub fn parse_asset(s: &str) -> (r: Option<u64>)
    ensures
        r == asset_value(s@),
{
    let v = str_chars(s);
    let n = v.len();
    let mut digits: Vec<char> = Vec::new();
    let mut i: usize = 0;
    proof {
        assert(s@.skip(0) == s@);
    }
    while i < n
        invariant
            v@ == s@,
            n == s@.len(),
            i <= n,
            digits@ + strip_dots(s@.skip(i as int)) == strip_dots(s@),
        decreases n - i,
    {
        proof {
            lemma_strip_dots_unfold(s@, i as int);
        }
        if v[i] != '.' {
            digits.push(v[i]);
        }
        i += 1;
    }
    proof {
        assert(s@.skip(n as int).len() == 0);
    }
    parse_dec_u64(&digits)
}

/// The notes whose amounts parse, in order, with their values; the
/// others are skipped rather than failing the whole selection.
pub open spec fn parsed_notes(notes: Seq<Note>) -> Seq<NoteVal>
    decreases notes.len(),
{
    if notes.len() == 0 {
        Seq::empty()
    } else {
        (match asset_value(notes[0].assets@) {
            Some(v) => seq![NoteVal { value: v, note: notes[0] }],
            None => Seq::empty(),
        }) + parsed_notes(notes.drop_first())
    }
}

proof fn lemma_parsed_notes_unfold(notes: Seq<Note>, i: int)
    requires
        0 <= i < notes.len(),
    ensures
        parsed_notes(notes.skip(i)) == (match asset_value(notes[i].assets@) {
            Some(v) => seq![NoteVal { value: v, note: notes[i] }],
            None => Seq::empty(),
        }) + parsed_notes(notes.skip(i + 1)),
{
    assert(notes.skip(i)[0] == notes[i]);
    assert(notes.skip(i).drop_first() =~= notes.skip(i + 1));
}

/// Parses all notes, skipping unparseable ones.
pub fn parse_notes(notes: Vec<Note>) -> (r: Vec<NoteVal>)
    ensures
        r@ == parsed_notes(notes@),
{
    let ghost orig = notes@;
    let n = notes.len();
    let mut out: Vec<NoteVal> = Vec::new();
    let mut rest = notes;
    let mut i: usize = 0;
    proof {
        assert(orig.skip(0) == orig);
    }
    // Consume from the front so each note can be moved, not cloned.
    while i < n
        invariant
            n == orig.len(),
            i <= n,
            rest@ == orig.skip(i as int),
            out@ + parsed_notes(orig.skip(i as int)) == parsed_notes(orig),
        decreases n - i,
    {
        proof {
            lemma_parsed_notes_unfold(orig, i as int);
        }
        let note = rest.remove(0);
        assert(note == orig[i as int]);
        match parse_asset(note.assets.as_str()) {
            Some(value) => {
                out.push(NoteVal { value, note });
            },
            None => {},
        }
        proof {
            assert(rest@ =~= orig.skip(i + 1));
        }
        i += 1;
    }
    proof {
        assert(orig.skip(n as int).len() == 0);
    }
    out
}

/// The total value of a sequence of parsed notes.
pub open spec fn sum_vals(s: Seq<NoteVal>) -> int
    decreases s.len(),
{
    if s.len() == 0 {
        0
    } else {
        sum_vals(s.drop_last()) + s.last().value
    }
}

/// Sorted by value, largest first.
pub open spec fn sorted_desc(s: Seq<NoteVal>) -> bool {
    forall|i: int, j: int| 0 <= i < j < s.len() ==> s[i].value >= s[j].value
}

proof fn lemma_sum_vals_nonneg(s: Seq<NoteVal>)
    ensures
        sum_vals(s) >= 0,
    decreases s.len(),
{
    if s.len() > 0 {
        lemma_sum_vals_nonneg(s.drop_last());
    }
}

proof fn lemma_sum_vals_remove(s: Seq<NoteVal>, i: int)
    requires
        0 <= i < s.len(),
    ensures
        sum_vals(s.remove(i)) == sum_vals(s) - s[i].value,
    decreases s.len(),
{
    if i == s.len() - 1 {
        assert(s.remove(i) =~= s.drop_last());
    } else {
        assert(s.remove(i).drop_last() =~= s.drop_last().remove(i));
        assert(s.remove(i).last() == s.last());
        lemma_sum_vals_remove(s.drop_last(), i);
        assert(s.drop_last()[i] == s[i]);
    }
}

fn max_index(v: &Vec<NoteVal>) -> (r: usize)
    requires
        v@.len() > 0,
    ensures
        r < v@.len(),
        forall|j: int| 0 <= j < v@.len() ==> v@[j].value <= v@[r as int].value,
{
    let mut best: usize = 0;
    let mut i: usize = 1;
    while i < v.len()
        invariant
            best < i <= v@.len(),
            forall|j: int| 0 <= j < i ==> v@[j].value <= v@[best as int].value,
        decreases v@.len() - i,
    {
        if v[i].value > v[best].value {
            best = i;
        }
        i += 1;
    }
    best
}

/// Sorts parsed notes by value, largest first. The result is a
/// permutation of the input with the same total value.
pub fn sort_notes_desc(notes: Vec<NoteVal>) -> (r: Vec<NoteVal>)
    ensures
        r@.to_multiset() == notes@.to_multiset(),
        sorted_desc(r@),
        sum_vals(r@) == sum_vals(notes@),
        r@.len() == notes@.len(),
    {
        let ghost orig = notes@;
        let mut rest = notes;
        let mut out: Vec<NoteVal> = Vec::new();
        proof {
            broadcast use vstd::seq_lib::group_to_multiset_ensures;
            assert(out@.to_multiset() =~= Multiset::<NoteVal>::empty());
        }
        while rest.len() > 0
            invariant
                out@.to_multiset().add(rest@.to_multiset()) =~= orig.to_multiset(),
                sum_vals(out@) + sum_vals(rest@) == sum_vals(orig),
                out@.len() + rest@.len() == orig.len(),
                sorted_desc(out@),
                forall|a: int, b: int|
                    0 <= a < out@.len() && 0 <= b < rest@.len() ==> out@[a].value
                        >= rest@[b].value,
            decreases rest@.len(),
        {
            proof {
                broadcast use vstd::seq_lib::group_to_multiset_ensures;
            }
            let i = max_index(&rest);
            let ghost restb = rest@;
            let ghost outb = out@;
            let x = rest.remove(i);
            proof {
                lemma_sum_vals_remove(restb, i as int);
            }
            out.push(x);
            proof {
                assert(out@.drop_last() =~= outb);
                assert(sum_vals(out@) == sum_vals(outb) + x.value);
                assert(out@.to_multiset() =~= outb.to_multiset().insert(x));
                assert(rest@.to_multiset() =~= restb.to_multiset().remove(x));
                assert(restb.to_multiset().count(x) > 0) by {
                    assert(restb[i as int] == x);
                    assert(restb.contains(x));
                }
                assert(out@.to_multiset().add(rest@.to_multiset()) =~= orig.to_multiset());
                assert forall|a: int, b: int|
                    0 <= a < out@.len() && 0 <= b < rest@.len() implies out@[a].value
                    >= rest@[b].value by {
                    assert(rest@[b] == restb[if b < i { b } else { b + 1 }]);
                    if a < out@.len() - 1 {
                        assert(out@[a] == outb[a]);
                    } else {
                        assert(out@[a] == x);
                    }
                }
            }
        }
        proof {
            assert(rest@.to_multiset() =~= Multiset::<NoteVal>::empty());
            assert(out@.to_multiset() =~= orig.to_multiset());
            broadcast use vstd::seq_lib::group_to_multiset_ensures;
        }
        out
    }

proof fn lemma_sum_vals_take_step(s: Seq<NoteVal>, k: int)
    requires
        0 <= k < s.len(),
    ensures
        sum_vals(s.take(k + 1)) == sum_vals(s.take(k)) + s[k].value,
{
    assert(s.take(k + 1).drop_last() =~= s.take(k));
    assert(s.take(k + 1).last() == s[k]);
}

/// Greedily selects the largest notes first, until the selection covers
/// `required`. Returns the selected prefix of the sorted notes; the
/// selection is minimal (one note fewer would not cover the amount),
/// and covers `required` unless the notes are exhausted.
pub fn select_notes(sorted: &Vec<NoteVal>, required: u64) -> (r: (Vec<NoteVal>, u128))
    requires
        sorted_desc(sorted@),
    ensures
        r.0@ == sorted@.take(r.0@.len() as int),
        r.1 == sum_vals(r.0@),
        r.1 >= required || r.0@.len() == sorted@.len(),
        r.0@.len() <= sorted@.len(),
        forall|j: int| 0 <= j < r.0@.len() ==> sum_vals(sorted@.take(j)) < required,
{
    let mut selected: Vec<NoteVal> = Vec::new();
    let mut total: u128 = 0;
    let mut i: usize = 0;
    let n = sorted.len();
    proof {
        assert(sorted@.take(0) =~= Seq::<NoteVal>::empty());
    }
    while i < n && total < required as u128
        invariant
            n == sorted@.len(),
            i <= n,
            selected@ == sorted@.take(i as int),
            selected@.len() == i,
            total == sum_vals(selected@),
            total <= i * (u64::MAX as int),
            forall|j: int| 0 <= j < i ==> sum_vals(sorted@.take(j)) < required,
        decreases n - i,
    {
        proof {
            lemma_sum_vals_take_step(sorted@, i as int);
            assert(total + sorted@[i as int].value <= (i + 1) * (u64::MAX as int))
                by (nonlinear_arith)
                requires
                    total <= i * (u64::MAX as int),
                    sorted@[i as int].value <= u64::MAX,
                    i >= 0,
            ;
            assert((n as int) * (u64::MAX as int) < u128::MAX) by (nonlinear_arith)
                requires
                    n <= usize::MAX,
            ;
            assert((i + 1) * (u64::MAX as int) <= (n as int) * (u64::MAX as int))
                by (nonlinear_arith)
                requires
                    i + 1 <= n,
            ;
        }
        let x = clone_note_val(&sorted[i]);
        total = total + x.value as u128;
        selected.push(x);
        proof {
            assert(selected@ =~= sorted@.take(i + 1));
        }
        i += 1;
    }
    (selected, total)
}

fn clone_note_val(v: &NoteVal) -> (r: NoteVal)
    ensures
        r == *v,
{
    NoteVal {
        value: v.value,
        note: Note {
            first: v.note.first.clone(),
            last: v.note.last.clone(),
            assets: v.note.assets.clone(),
        },
    }
}

/// The `[first last]` form a note is referred to by in a spend request.
pub open spec fn note_name_str(n: Note) -> Seq<char> {
    "["@ + n.first@ + " "@ + n.last@ + "]"@
}

/// The `[1 recipient]` form of a spend recipient.
pub open spec fn recipient_str(t: TransactionEntry) -> Seq<char> {
    "[1 "@ + t.recipient@ + "]"@
}

/// The sum of the amounts of a list of line items.
pub open spec fn amounts_sum(ts: Seq<TransactionEntry>) -> int
    decreases ts.len(),
{
    if ts.len() == 0 {
        0
    } else {
        amounts_sum(ts.drop_last()) + ts.last().amount
    }
}

/// Where a fresh draft's artifact is stored.
pub open spec fn draft_location(dir: Seq<char>, wallet: Seq<char>, name: Seq<char>) -> Seq<char> {
    dir + "/"@ + wallet + "/"@ + name + ".draft"@
}

/// A greedy largest-first selection from the parseable notes: a prefix
/// of some descending ordering of them, just long enough to cover the
/// required amount (or all of them, when they do not cover it).
pub open spec fn is_greedy_selection(parsed: Seq<NoteVal>, req: int, sel: Seq<NoteVal>) -> bool {
    exists|sorted: Seq<NoteVal>|
        {
            &&& #[trigger] sorted.to_multiset() == parsed.to_multiset()
            &&& sorted_desc(sorted)
            &&& sel == sorted.take(sel.len() as int)
            &&& sum_vals(sel) >= req || sel.len() == sorted.len()
            &&& forall|j: int| 0 <= j < sel.len() ==> sum_vals(sorted.take(j)) < req
        }
}

/// Everything needed to carry one planned spend through the kernel:
/// the command to send, the draft record to register on success, and
/// the notes the plan consumes.
#[derive(Debug)]
pub struct SpendPlan {
    pub command: Commands,
    pub draft: NockchainTx,
    pub selected: Vec<NoteVal>,
}

fn note_name_string(n: &Note) -> (r: String)
    ensures
        r@ == note_name_str(*n),
{
    let mut r = String::from_str("[");
    r.append(n.first.as_str());
    r.append(" ");
    r.append(n.last.as_str());
    r.append("]");
    r
}

fn build_names(selected: &Vec<NoteVal>) -> (r: String)
    ensures
        r@ == join_spec(selected@.map_values(|nv: NoteVal| note_name_str(nv.note)), ","@),
{
    let mut parts: Vec<String> = Vec::new();
    let mut i: usize = 0;
    while i < selected.len()
        invariant
            i <= selected@.len(),
            parts@.map_values(|p: String| p@) =~= selected@.take(i as int).map_values(
                |nv: NoteVal| note_name_str(nv.note),
            ),
        decreases selected@.len() - i,
    {
        let ghost prevp = parts@;
        parts.push(note_name_string(&selected[i].note));
        proof {
            assert(selected@.take(i + 1) =~= selected@.take(i as int).push(selected@[i as int]));
            lemma_map_values_push(prevp, parts@.last(), |p: String| p@);
            lemma_map_values_push(
                selected@.take(i as int),
                selected@[i as int],
                |nv: NoteVal| note_name_str(nv.note),
            );
            assert(parts@ =~= prevp.push(parts@.last()));
            assert(parts@.map_values(|p: String| p@) =~= selected@.take(i + 1).map_values(
                |nv: NoteVal| note_name_str(nv.note),
            ));
        }
        i += 1;
    }
    proof {
        assert(selected@.take(selected@.len() as int) =~= selected@);
    }
    join_strings(&parts, ",")
}

fn build_recipients(transactions: &Vec<TransactionEntry>) -> (r: String)
    ensures
        r@ == join_spec(transactions@.map_values(|t: TransactionEntry| recipient_str(t)), ","@),
{
    let mut parts: Vec<String> = Vec::new();
    let mut i: usize = 0;
    while i < transactions.len()
        invariant
            i <= transactions@.len(),
            parts@.map_values(|p: String| p@) =~= transactions@.take(i as int).map_values(
                |t: TransactionEntry| recipient_str(t),
            ),
        decreases transactions@.len() - i,
    {
        let mut part = String::from_str("[1 ");
        part.append(transactions[i].recipient.as_str());
        part.append("]");
        let ghost prevp = parts@;
        parts.push(part);
        proof {
            assert(transactions@.take(i + 1) =~= transactions@.take(i as int).push(
                transactions@[i as int],
            ));
            lemma_map_values_push(prevp, parts@.last(), |p: String| p@);
            lemma_map_values_push(
                transactions@.take(i as int),
                transactions@[i as int],
                |t: TransactionEntry| recipient_str(t),
            );
            assert(parts@ =~= prevp.push(parts@.last()));
            assert(parts@.map_values(|p: String| p@) =~= transactions@.take(i + 1).map_values(
                |t: TransactionEntry| recipient_str(t),
            ));
        }
        i += 1;
    }
    proof {
        assert(transactions@.take(transactions@.len() as int) =~= transactions@);
    }
    join_strings(&parts, ",")
}

fn build_gifts(transactions: &Vec<TransactionEntry>) -> (r: String)
    ensures
        r@ == join_spec(
            transactions@.map_values(|t: TransactionEntry| dec_str(t.amount as nat)),
            ","@,
        ),
{
    let mut parts: Vec<String> = Vec::new();
    let mut i: usize = 0;
    while i < transactions.len()
        invariant
            i <= transactions@.len(),
            parts@.map_values(|p: String| p@) =~= transactions@.take(i as int).map_values(
                |t: TransactionEntry| dec_str(t.amount as nat),
            ),
        decreases transactions@.len() - i,
    {
        let ghost prevp = parts@;
        parts.push(u64_to_dec(transactions[i].amount));
        proof {
            assert(transactions@.take(i + 1) =~= transactions@.take(i as int).push(
                transactions@[i as int],
            ));
            lemma_map_values_push(prevp, parts@.last(), |p: String| p@);
            lemma_map_values_push(
                transactions@.take(i as int),
                transactions@[i as int],
                |t: TransactionEntry| dec_str(t.amount as nat),
            );
            assert(parts@ =~= prevp.push(parts@.last()));
            assert(parts@.map_values(|p: String| p@) =~= transactions@.take(i + 1).map_values(
                |t: TransactionEntry| dec_str(t.amount as nat),
            ));
        }
        i += 1;
    }
    proof {
        assert(transactions@.take(transactions@.len() as int) =~= transactions@);
    }
    join_strings(&parts, ",")
}

proof fn lemma_amounts_sum_take_step(ts: Seq<TransactionEntry>, k: int)
    requires
        0 <= k < ts.len(),
    ensures
        amounts_sum(ts.take(k + 1)) == amounts_sum(ts.take(k)) + ts[k].amount,
{
    assert(ts.take(k + 1).drop_last() =~= ts.take(k));
    assert(ts.take(k + 1).last() == ts[k]);
}

proof fn lemma_sum_vals_take_le(s: Seq<NoteVal>, k: int)
    requires
        0 <= k <= s.len(),
    ensures
        sum_vals(s.take(k)) <= sum_vals(s),
    decreases s.len() - k,
{
    if k < s.len() {
        lemma_sum_vals_take_step(s, k);
        lemma_sum_vals_take_le(s, k + 1);
    } else {
        assert(s.take(k) =~= s);
    }
}

impl Wallet {
    /// Plans a spend: validates the request, selects the notes to
    /// consume (largest first, skipping notes whose amount string does
    /// not parse), and builds the spend command, the draft file
    /// location and the draft record. Nothing is registered yet; the
    /// caller sends the command and registers the draft only on
    /// success.
    pub fn create_tx(
        &self,
        transactions: Vec<TransactionEntry>,
        fee: u64,
        notes: Vec<Note>,
        draft_name: String,
        now_ms: u64,
    ) -> (r: Result<SpendPlan, String>)
        ensures
            ({
                let req = fee + amounts_sum(transactions@);
                match r {
                    Err(e) => {
                        ||| transactions@.len() == 0 && e@ == "no transactions"@
                        ||| transactions@.len() > 0 && fee == 0 && e@ == "fee is 0"@
                        ||| transactions@.len() > 0 && fee > 0 && self.balance_spec() is None && e@
                            == "balance is not set"@
                        ||| transactions@.len() > 0 && fee > 0 && (self.balance_spec()
                            matches Some(b) && req > b) && e@
                            == "spending amount is greater than balance"@
                        ||| transactions@.len() > 0 && fee > 0 && (self.balance_spec()
                            matches Some(b) && req <= b) && sum_vals(parsed_notes(notes@)) < req
                            && e@ == "insufficient funds in available notes"@
                        ||| transactions@.len() > 0 && fee > 0 && (self.balance_spec()
                            matches Some(b) && req <= b) && sum_vals(parsed_notes(notes@)) >= req
                            && self.name_spec() is None && e@ == "wallet name is not set"@
                    },
                    Ok(plan) => {
                        &&& transactions@.len() > 0
                        &&& fee > 0
                        &&& self.balance_spec() matches Some(b) && req <= b
                        &&& sum_vals(parsed_notes(notes@)) >= req
                        &&& self.name_spec() is Some
                        &&& is_greedy_selection(parsed_notes(notes@), req, plan.selected@)
                        &&& sum_vals(plan.selected@) >= req
                        &&& plan.command matches Commands::AeroeSpend {
                            names,
                            recipients,
                            gifts,
                            fee: f,
                            file_path,
                        } && {
                            &&& names@ == join_spec(
                                plan.selected@.map_values(|nv: NoteVal| note_name_str(nv.note)),
                                ","@,
                            )
                            &&& recipients@ == join_spec(
                                transactions@.map_values(|t: TransactionEntry| recipient_str(t)),
                                ","@,
                            )
                            &&& gifts@ == join_spec(
                                transactions@.map_values(
                                    |t: TransactionEntry| dec_str(t.amount as nat),
                                ),
                                ","@,
                            )
                            &&& f == fee
                            &&& file_path@ == plan.draft.location@
                        }
                        &&& plan.draft.location@ == draft_location(
                            self.draft_dir_spec(),
                            self.name_spec().unwrap()@,
                            draft_name@,
                        )
                        &&& plan.draft.metadata.draft_id == draft_name
                        &&& plan.draft.metadata.transactions == transactions
                        &&& plan.draft.metadata.fee == fee
                        &&& plan.draft.metadata.created_at@ == dec_str(now_ms as nat)
                        &&& plan.draft.metadata.signed_at is None
                        &&& plan.draft.metadata.broadcasted_at is None
                        &&& plan.draft.metadata.status is Draft
                    },
                }
            }),
    {
        if transactions.len() == 0 {
            return Err(String::from_str("no transactions"));
        }
        if fee == 0 {
            return Err(String::from_str("fee is 0"));
        }
        let balance = self.get_balance()?;
        let mut total: u128 = 0;
        let mut i: usize = 0;
        let n = transactions.len();
        proof {
            assert(transactions@.take(0) =~= Seq::<TransactionEntry>::empty());
        }
        while i < n
            invariant
                n == transactions@.len(),
                i <= n,
                total == amounts_sum(transactions@.take(i as int)),
                total <= i * (u64::MAX as int),
            decreases n - i,
        {
            proof {
                lemma_amounts_sum_take_step(transactions@, i as int);
                assert(total + transactions@[i as int].amount <= (i + 1) * (u64::MAX as int))
                    by (nonlinear_arith)
                    requires
                        total <= i * (u64::MAX as int),
                        transactions@[i as int].amount <= u64::MAX,
                        i >= 0,
                ;
                assert((i + 1) * (u64::MAX as int) <= (n as int) * (u64::MAX as int))
                    by (nonlinear_arith)
                    requires
                        i + 1 <= n,
                ;
                assert((n as int) * (u64::MAX as int) < u128::MAX) by (nonlinear_arith)
                    requires
                        n <= usize::MAX,
                ;
            }
            total = total + transactions[i].amount as u128;
            i += 1;
        }
        proof {
            assert(transactions@.take(n as int) =~= transactions@);
        }
        let req128: u128 = total + fee as u128;
        if req128 > balance as u128 {
            return Err(String::from_str("spending amount is greater than balance"));
        }
        let req: u64 = req128 as u64;
        let parsed = parse_notes(notes);
        let sorted = sort_notes_desc(parsed);
        let ghost sortedv = sorted@;
        let (selected, sel_total) = select_notes(&sorted, req);
        if sel_total < req as u128 {
            proof {
                assert(selected@.len() == sorted@.len());
                assert(selected@ =~= sorted@);
                lemma_sum_vals_take_le(sorted@, selected@.len() as int);
            }
            return Err(String::from_str("insufficient funds in available notes"));
        }
        proof {
            lemma_sum_vals_take_le(sortedv, selected@.len() as int);
        }
        let wallet_name = match &self.wallet_name {
            Some(nm) => nm.clone(),
            None => {
                return Err(String::from_str("wallet name is not set"));
            },
        };
        let names = build_names(&selected);
        let recipients = build_recipients(&transactions);
        let gifts = build_gifts(&transactions);
        let mut location = String::new();
        location.append(self.draft_dir.as_str());
        location.append("/");
        location.append(wallet_name.as_str());
        location.append("/");
        location.append(draft_name.as_str());
        location.append(".draft");
        let created_at = u64_to_dec(now_ms);
        let file_path = location.clone();
        let command = Commands::AeroeSpend { names, recipients, gifts, fee, file_path };
        let meta = NockchainTxMeta {
            draft_id: draft_name,
            transactions,
            fee,
            created_at,
            signed_at: None,
            broadcasted_at: None,
            status: NockchainTxStatus::Draft,
        };
        proof {
            assert(is_greedy_selection(parsed_notes(notes@), req as int, selected@));
        }
        Ok(SpendPlan { command, draft: NockchainTx { metadata: meta, location }, selected })
    }
}

/// Bookkeeping records that agree in every field (line items compared
/// by contents).
pub open spec fn meta_eqv(a: NockchainTxMeta, b: NockchainTxMeta) -> bool {
    &&& a.draft_id == b.draft_id
    &&& a.transactions@ == b.transactions@
    &&& a.fee == b.fee
    &&& a.created_at == b.created_at
    &&& a.signed_at == b.signed_at
    &&& a.broadcasted_at == b.broadcasted_at
    &&& a.status == b.status
}

fn clone_opt_string(v: &Option<String>) -> (r: Option<String>)
    ensures
        r == *v,
{
    match v {
        Some(s) => Some(s.clone()),
        None => None,
    }
}

fn clone_transactions(v: &Vec<TransactionEntry>) -> (r: Vec<TransactionEntry>)
    ensures
        r@ == v@,
{
    let mut r: Vec<TransactionEntry> = Vec::new();
    let mut i: usize = 0;
    while i < v.len()
        invariant
            i <= v@.len(),
            r@ == v@.take(i as int),
        decreases v@.len() - i,
    {
        r.push(TransactionEntry { recipient: v[i].recipient.clone(), amount: v[i].amount });
        proof {
            assert(r@.last() == v@[i as int]);
            assert(v@.take(i + 1) =~= v@.take(i as int).push(v@[i as int]));
        }
        i += 1;
    }
    proof {
        assert(v@.take(v@.len() as int) =~= v@);
    }
    r
}

fn clone_meta(m: &NockchainTxMeta) -> (r: NockchainTxMeta)
    ensures
        meta_eqv(r, *m),
{
    NockchainTxMeta {
        draft_id: m.draft_id.clone(),
        transactions: clone_transactions(&m.transactions),
        fee: m.fee,
        created_at: m.created_at.clone(),
        signed_at: clone_opt_string(&m.signed_at),
        broadcasted_at: clone_opt_string(&m.broadcasted_at),
        status: m.status,
    }
}

impl Wallet {
    fn find_draft_index(&self, draft_id: &String) -> (r: Option<usize>)
        ensures
            match r {
                Some(i) => i < self.drafts_spec().len() && self.drafts_spec()[i as int
                ].metadata.draft_id@ == draft_id@,
                None => forall|i: int|
                    0 <= i < self.drafts_spec().len() ==> #[trigger] self.drafts_spec()[i
                    ].metadata.draft_id@ != draft_id@,
            },
    {
        let mut i: usize = 0;
        while i < self.drafts.len()
            invariant
                i <= self.drafts_spec().len(),
                forall|j: int|
                    0 <= j < i ==> #[trigger] self.drafts_spec()[j].metadata.draft_id@
                        != draft_id@,
            decreases self.drafts_spec().len() - i,
        {
            if self.drafts[i].metadata.draft_id.eq(draft_id) {
                return Some(i);
            }
            i += 1;
        }
        None
    }

    /// Registers a planned draft after the kernel accepted the spend.
    /// A draft with the same id (which the collision-resistant naming
    /// makes all but impossible) is replaced. Returns the registered
    /// record's bookkeeping data, as the caller reports it.
    pub fn register_draft(&mut self, draft: NockchainTx) -> (r: NockchainTxMeta)
        requires
            old(self).wf(),
        ensures
            final(self).wf(),
            meta_eqv(r, draft.metadata),
            final(self).name_spec() == old(self).name_spec(),
            final(self).pubkey_spec() == old(self).pubkey_spec(),
            final(self).balance_spec() == old(self).balance_spec(),
            final(self).height_spec() == old(self).height_spec(),
            final(self).last_sync_spec() == old(self).last_sync_spec(),
            final(self).draft_dir_spec() == old(self).draft_dir_spec(),
            if exists|i: int|
                0 <= i < old(self).drafts_spec().len() && #[trigger] old(self).drafts_spec()[i
                ].metadata.draft_id@ == draft.metadata.draft_id@ {
                exists|i: int|
                    {
                        &&& 0 <= i < old(self).drafts_spec().len()
                        &&& #[trigger] old(self).drafts_spec()[i].metadata.draft_id@
                            == draft.metadata.draft_id@
                        &&& final(self).drafts_spec() == old(self).drafts_spec().update(i, draft)
                    }
            } else {
                final(self).drafts_spec() == old(self).drafts_spec().push(draft)
            },
    {
        let r = clone_meta(&draft.metadata);
        match self.find_draft_index(&draft.metadata.draft_id) {
            Some(i) => {
                let ghost before = self.drafts@;
                self.drafts.remove(i);
                self.drafts.insert(i, draft);
                proof {
                    assert(self.drafts@ =~= before.update(i as int, self.drafts@[i as int]));
                    assert forall|p: int, q: int|
                        0 <= p < q < self.drafts_spec().len() implies self.drafts_spec()[p
                        ].metadata.draft_id@ != self.drafts_spec()[q].metadata.draft_id@ by {
                        if p != i && q != i {
                            assert(self.drafts@[p] == before[p]);
                            assert(self.drafts@[q] == before[q]);
                        } else if p == i {
                            assert(self.drafts@[q] == before[q]);
                            assert(before[i as int].metadata.draft_id@
                                == self.drafts@[p].metadata.draft_id@);
                        } else {
                            assert(self.drafts@[p] == before[p]);
                            assert(before[i as int].metadata.draft_id@
                                == self.drafts@[q].metadata.draft_id@);
                        }
                    }
                }
                r
            },
            None => {
                let ghost before = self.drafts@;
                self.drafts.push(draft);
                proof {
                    assert forall|p: int, q: int|
                        0 <= p < q < self.drafts_spec().len() implies self.drafts_spec()[p
                        ].metadata.draft_id@ != self.drafts_spec()[q].metadata.draft_id@ by {
                        if q < before.len() {
                            assert(self.drafts@[p] == before[p]);
                            assert(self.drafts@[q] == before[q]);
                        } else {
                            assert(self.drafts@[p] == before[p]);
                            assert(self.drafts@[q] == before.push(self.drafts@[q])[q]);
                        }
                    }
                }
                r
            },
        }
    }

    /// Builds the request that signs a draft: the kernel reads the
    /// current artifact and writes the signed one next to it. Only a
    /// draft that has not been broadcast can be signed; re-signing an
    /// already signed draft is allowed and does not regress it.
    pub fn sign_tx_request(&self, draft_id: &String) -> (r: Result<Commands, String>)
        requires
            self.wf(),
        ensures
            match r {
                Ok(c) => exists|i: int|
                    {
                        &&& 0 <= i < self.drafts_spec().len()
                        &&& (#[trigger] self.drafts_spec()[i]).metadata.draft_id@ == draft_id@
                        &&& !(self.drafts_spec()[i].metadata.status is Pending)
                        &&& c matches Commands::SignAeroeTx { draft, index, file_path } && draft@
                            == self.drafts_spec()[i].location@ && index is None && file_path@
                            == replace_spec(
                            self.drafts_spec()[i].location@,
                            ".draft"@,
                            ".signed"@,
                        )
                    },
                Err(e) => {
                    ||| (forall|i: int|
                        0 <= i < self.drafts_spec().len()
                            ==> (#[trigger] self.drafts_spec()[i]).metadata.draft_id@
                            != draft_id@) && e@ == "draft not found"@
                    ||| (exists|i: int|
                        0 <= i < self.drafts_spec().len()
                            && (#[trigger] self.drafts_spec()[i]).metadata.draft_id@ == draft_id@
                            && self.drafts_spec()[i].metadata.status is Pending) && e@
                        == "draft already broadcast"@
                },
            },
    {
        match self.find_draft_index(draft_id) {
            Some(i) => {
                if matches!(self.drafts[i].metadata.status, NockchainTxStatus::Pending) {
                    return Err(String::from_str("draft already broadcast"));
                }
                let location = self.drafts[i].location.clone();
                proof {
                    reveal_strlit(".draft");
                }
                let signed_path = replace_all(location.as_str(), ".draft", ".signed");
                Ok(Commands::SignAeroeTx { draft: location, index: None, file_path: signed_path })
            },
            None => Err(String::from_str("draft not found")),
        }
    }

    /// Records that the kernel signed a draft: its status becomes
    /// `Signed`, its location moves to the signed artifact, and the
    /// signing time is kept. A broadcast draft never regresses.
    pub fn mark_signed(&mut self, draft_id: &String, now_ms: u64) -> (r: Result<
        NockchainTxMeta,
        String,
    >)
        requires
            old(self).wf(),
        ensures
            final(self).wf(),
            final(self).name_spec() == old(self).name_spec(),
            final(self).pubkey_spec() == old(self).pubkey_spec(),
            final(self).balance_spec() == old(self).balance_spec(),
            final(self).height_spec() == old(self).height_spec(),
            final(self).last_sync_spec() == old(self).last_sync_spec(),
            final(self).draft_dir_spec() == old(self).draft_dir_spec(),
            match r {
                Ok(meta) => exists|i: int|
                    {
                        &&& 0 <= i < old(self).drafts_spec().len()
                        &&& (#[trigger] old(self).drafts_spec()[i]).metadata.draft_id@
                            == draft_id@
                        &&& !(old(self).drafts_spec()[i].metadata.status is Pending)
                        &&& final(self).drafts_spec() == old(self).drafts_spec().update(
                            i,
                            NockchainTx {
                                metadata: NockchainTxMeta {
                                    status: NockchainTxStatus::Signed,
                                    signed_at: Some(meta.signed_at.unwrap()),
                                    ..old(self).drafts_spec()[i].metadata
                                },
                                location: final(self).drafts_spec()[i].location,
                            },
                        )
                        &&& final(self).drafts_spec()[i].location@ == replace_spec(
                            old(self).drafts_spec()[i].location@,
                            ".draft"@,
                            ".signed"@,
                        )
                        &&& meta_eqv(meta, final(self).drafts_spec()[i].metadata)
                        &&& meta.status is Signed
                        &&& meta.signed_at matches Some(t) && t@ == dec_str(now_ms as nat)
                    },
                Err(e) => final(self).drafts_spec() == old(self).drafts_spec() && {
                    ||| (forall|i: int|
                        0 <= i < old(self).drafts_spec().len()
                            ==> (#[trigger] old(self).drafts_spec()[i]).metadata.draft_id@
                            != draft_id@) && e@ == "draft not found"@
                    ||| (exists|i: int|
                        0 <= i < old(self).drafts_spec().len()
                            && (#[trigger] old(self).drafts_spec()[i]).metadata.draft_id@
                            == draft_id@ && old(self).drafts_spec()[i].metadata.status is Pending)
                        && e@ == "draft already broadcast"@
                },
            },
    {
        match self.find_draft_index(draft_id) {
            Some(i) => {
                if matches!(self.drafts[i].metadata.status, NockchainTxStatus::Pending) {
                    return Err(String::from_str("draft already broadcast"));
                }
                let ghost before = self.drafts@;
                let old_draft = self.drafts.remove(i);
                proof {
                    reveal_strlit(".draft");
                }
                let signed_path = replace_all(old_draft.location.as_str(), ".draft", ".signed");
                let new_draft = NockchainTx {
                    metadata: NockchainTxMeta {
                        status: NockchainTxStatus::Signed,
                        signed_at: Some(u64_to_dec(now_ms)),
                        ..old_draft.metadata
                    },
                    location: signed_path,
                };
                let meta = clone_meta(&new_draft.metadata);
                self.drafts.insert(i, new_draft);
                proof {
                    assert(self.drafts@ =~= before.update(i as int, self.drafts@[i as int]));
                    assert forall|p: int, q: int|
                        0 <= p < q < self.drafts_spec().len() implies self.drafts_spec()[p
                        ].metadata.draft_id@ != self.drafts_spec()[q].metadata.draft_id@ by {
                        if p != i && q != i {
                            assert(self.drafts@[p] == before[p]);
                            assert(self.drafts@[q] == before[q]);
                        } else if p == i {
                            assert(self.drafts@[q] == before[q]);
                            assert(before[i as int].metadata.draft_id@
                                == self.drafts@[p].metadata.draft_id@);
                        } else {
                            assert(self.drafts@[p] == before[p]);
                            assert(before[i as int].metadata.draft_id@
                                == self.drafts@[q].metadata.draft_id@);
                        }
                    }
                }
                Ok(meta)
            },
            None => Err(String::from_str("draft not found")),
        }
    }

    /// Builds the request that broadcasts a draft's signed artifact.
    /// Only a signed draft can be broadcast: an unsigned one is
    /// rejected, and a pending one is terminal.
    pub fn send_tx_request(&self, draft_id: &String) -> (r: Result<Commands, String>)
        requires
            self.wf(),
        ensures
            match r {
                Ok(c) => exists|i: int|
                    {
                        &&& 0 <= i < self.drafts_spec().len()
                        &&& (#[trigger] self.drafts_spec()[i]).metadata.draft_id@ == draft_id@
                        &&& self.drafts_spec()[i].metadata.status is Signed
                        &&& c matches Commands::MakeTx { draft } && draft@
                            == self.drafts_spec()[i].location@
                    },
                Err(e) => {
                    ||| (forall|i: int|
                        0 <= i < self.drafts_spec().len()
                            ==> (#[trigger] self.drafts_spec()[i]).metadata.draft_id@
                            != draft_id@) && e@ == "draft not found"@
                    ||| (exists|i: int|
                        0 <= i < self.drafts_spec().len()
                            && (#[trigger] self.drafts_spec()[i]).metadata.draft_id@ == draft_id@
                            && self.drafts_spec()[i].metadata.status is Draft) && e@
                        == "draft not signed"@
                    ||| (exists|i: int|
                        0 <= i < self.drafts_spec().len()
                            && (#[trigger] self.drafts_spec()[i]).metadata.draft_id@ == draft_id@
                            && self.drafts_spec()[i].metadata.status is Pending) && e@
                        == "draft already broadcast"@
                },
            },
    {
        match self.find_draft_index(draft_id) {
            Some(i) => match self.drafts[i].metadata.status {
                NockchainTxStatus::Draft => Err(String::from_str("draft not signed")),
                NockchainTxStatus::Pending => Err(String::from_str("draft already broadcast")),
                NockchainTxStatus::Signed => Ok(
                    Commands::MakeTx { draft: self.drafts[i].location.clone() },
                ),
            },
            None => Err(String::from_str("draft not found")),
        }
    }

    /// Records that the kernel broadcast a draft: its status becomes
    /// `Pending` (terminal) and the broadcast time is kept.
    pub fn mark_broadcast(&mut self, draft_id: &String, now_ms: u64) -> (r: Result<
        NockchainTxMeta,
        String,
    >)
        requires
            old(self).wf(),
        ensures
            final(self).wf(),
            final(self).name_spec() == old(self).name_spec(),
            final(self).pubkey_spec() == old(self).pubkey_spec(),
            final(self).balance_spec() == old(self).balance_spec(),
            final(self).height_spec() == old(self).height_spec(),
            final(self).last_sync_spec() == old(self).last_sync_spec(),
            final(self).draft_dir_spec() == old(self).draft_dir_spec(),
            match r {
                Ok(meta) => exists|i: int|
                    {
                        &&& 0 <= i < old(self).drafts_spec().len()
                        &&& (#[trigger] old(self).drafts_spec()[i]).metadata.draft_id@
                            == draft_id@
                        &&& old(self).drafts_spec()[i].metadata.status is Signed
                        &&& final(self).drafts_spec() == old(self).drafts_spec().update(
                            i,
                            NockchainTx {
                                metadata: NockchainTxMeta {
                                    status: NockchainTxStatus::Pending,
                                    broadcasted_at: Some(meta.broadcasted_at.unwrap()),
                                    ..old(self).drafts_spec()[i].metadata
                                },
                                location: old(self).drafts_spec()[i].location,
                            },
                        )
                        &&& meta_eqv(meta, final(self).drafts_spec()[i].metadata)
                        &&& meta.status is Pending
                        &&& meta.broadcasted_at matches Some(t) && t@ == dec_str(now_ms as nat)
                    },
                Err(e) => final(self).drafts_spec() == old(self).drafts_spec() && {
                    ||| (forall|i: int|
                        0 <= i < old(self).drafts_spec().len()
                            ==> (#[trigger] old(self).drafts_spec()[i]).metadata.draft_id@
                            != draft_id@) && e@ == "draft not found"@
                    ||| (exists|i: int|
                        0 <= i < old(self).drafts_spec().len()
                            && (#[trigger] old(self).drafts_spec()[i]).metadata.draft_id@
                            == draft_id@ && old(self).drafts_spec()[i].metadata.status is Draft)
                        && e@ == "draft not signed"@
                    ||| (exists|i: int|
                        0 <= i < old(self).drafts_spec().len()
                            && (#[trigger] old(self).drafts_spec()[i]).metadata.draft_id@
                            == draft_id@ && old(self).drafts_spec()[i].metadata.status is Pending)
                        && e@ == "draft already broadcast"@
                },
            },
    {
        match self.find_draft_index(draft_id) {
            Some(i) => {
                match self.drafts[i].metadata.status {
                    NockchainTxStatus::Draft => {
                        return Err(String::from_str("draft not signed"));
                    },
                    NockchainTxStatus::Pending => {
                        return Err(String::from_str("draft already broadcast"));
                    },
                    NockchainTxStatus::Signed => {},
                }
                let ghost before = self.drafts@;
                let old_draft = self.drafts.remove(i);
                let new_draft = NockchainTx {
                    metadata: NockchainTxMeta {
                        status: NockchainTxStatus::Pending,
                        broadcasted_at: Some(u64_to_dec(now_ms)),
                        ..old_draft.metadata
                    },
                    location: old_draft.location,
                };
                let meta = clone_meta(&new_draft.metadata);
                self.drafts.insert(i, new_draft);
                proof {
                    assert(self.drafts@ =~= before.update(i as int, self.drafts@[i as int]));
                    assert forall|p: int, q: int|
                        0 <= p < q < self.drafts_spec().len() implies self.drafts_spec()[p
                        ].metadata.draft_id@ != self.drafts_spec()[q].metadata.draft_id@ by {
                        if p != i && q != i {
                            assert(self.drafts@[p] == before[p]);
                            assert(self.drafts@[q] == before[q]);
                        } else if p == i {
                            assert(self.drafts@[q] == before[q]);
                            assert(before[i as int].metadata.draft_id@
                                == self.drafts@[p].metadata.draft_id@);
                        } else {
                            assert(self.drafts@[p] == before[p]);
                            assert(before[i as int].metadata.draft_id@
                                == self.drafts@[q].metadata.draft_id@);
                        }
                    }
                }
                Ok(meta)
            },
            None => Err(String::from_str("draft not found")),
        }
    }

    /// A snapshot of all registered drafts' bookkeeping records, in
    /// registration order; callers filter by status as needed.
    pub fn list_unsent_txs(&self) -> (r: Vec<NockchainTxMeta>)
        ensures
            r@.len() == self.drafts_spec().len(),
            forall|i: int|
                0 <= i < r@.len() ==> meta_eqv(r@[i], #[trigger] self.drafts_spec()[i].metadata),
    {
        let mut r: Vec<NockchainTxMeta> = Vec::new();
        let mut i: usize = 0;
        while i < self.drafts.len()
            invariant
                i <= self.drafts_spec().len(),
                r@.len() == i,
                forall|j: int|
                    0 <= j < i ==> meta_eqv(r@[j], #[trigger] self.drafts_spec()[j].metadata),
            decreases self.drafts_spec().len() - i,
        {
            r.push(clone_meta(&self.drafts[i].metadata));
            i += 1;
        }
        r
    }
}

/// Reads a master-public-key reply: the payload atom's bytes, with the
/// kernel's zero-byte padding removed, decoded as UTF-8.
pub fn parse_master_pubkey(reply: Vec<KernelValue>) -> (r: Result<String, String>)
    requires
        reply@.len() > 0,
    ensures
        match r {
            Ok(s) => reply@[0].peek_payload_spec() matches Some(p) && (p matches KernelValue::Atom(
                b,
            ) && valid_utf8(strip_nul(b@)) && s@ == decode_utf8(strip_nul(b@))),
            Err(e) => {
                ||| reply@[0].peek_payload_spec() is None && e@ == "invalid noun"@
                ||| (reply@[0].peek_payload_spec() matches Some(p) && !(p is Atom)) && e@
                    == "pubkey: pubkey is not an atom"@
                ||| (reply@[0].peek_payload_spec() matches Some(p) && (p
                    matches KernelValue::Atom(b) && !valid_utf8(strip_nul(b@)))) && e@
                    == "pubkey: pubkey atom bytes are not valid UTF-8"@
            },
        },
{
    let mut reply = reply;
    let first = reply.remove(0);
    let payload = peek_payload(first)?;
    match payload {
        KernelValue::Atom(b) => {
            let stripped = strip_nul_bytes(&b);
            match bytes_to_string(stripped) {
                Some(s) => Ok(s),
                None => Err(String::from_str("pubkey: pubkey atom bytes are not valid UTF-8")),
            }
        },
        _ => Err(String::from_str("pubkey: pubkey is not an atom")),
    }
}

/// Reads a balance reply: the payload atom's number.
pub fn parse_balance(reply: Vec<KernelValue>) -> (r: Result<u64, String>)
    requires
        reply@.len() > 0,
    ensures
        match r {
            Ok(n) => reply@[0].peek_payload_spec() matches Some(p) && (p matches KernelValue::Atom(
                b,
            ) && n as nat == KernelValue::atom_nat(b@)),
            Err(e) => {
                ||| reply@[0].peek_payload_spec() is None && e@ == "invalid noun"@
                ||| (reply@[0].peek_payload_spec() matches Some(p) && !(p is Atom)) && e@
                    == "balance: noun is not an atom"@
                ||| (reply@[0].peek_payload_spec() matches Some(p) && (p
                    matches KernelValue::Atom(b) && KernelValue::atom_nat(b@) > u64::MAX)) && e@
                    == "balance: atom is not a valid i64"@
            },
        },
{
    let mut reply = reply;
    let first = reply.remove(0);
    let payload = peek_payload(first)?;
    match payload {
        KernelValue::Atom(b) => match atom_to_u64(&b) {
            Some(n) => Ok(n),
            None => Err(String::from_str("balance: atom is not a valid i64")),
        },
        _ => Err(String::from_str("balance: noun is not an atom")),
    }
}

/// Reads a seed-phrase reply: the payload atom's bytes, with zero-byte
/// padding removed, decoded as UTF-8 and split into words on ASCII
/// whitespace.
pub fn parse_seedphrase(reply: Vec<KernelValue>) -> (r: Result<Vec<String>, String>)
    requires
        reply@.len() > 0,
    ensures
        match r {
            Ok(words) => reply@[0].peek_payload_spec() matches Some(p) && (p
                matches KernelValue::Atom(b) && {
                let ws = split_ws(strip_nul(b@));
                &&& valid_utf8(strip_nul(b@))
                &&& words@.len() == ws.len()
                &&& forall|i: int|
                    0 <= i < ws.len() ==> valid_utf8(#[trigger] ws[i]) && words@[i]@
                        == decode_utf8(ws[i])
            }),
            Err(e) => {
                ||| reply@[0].peek_payload_spec() is None && e@ == "invalid noun"@
                ||| (reply@[0].peek_payload_spec() matches Some(p) && !(p is Atom)) && e@
                    == "seedphrase: phrase is not an atom"@
                ||| (reply@[0].peek_payload_spec() matches Some(p) && (p
                    matches KernelValue::Atom(b) && !(valid_utf8(strip_nul(b@)) && forall|i: int|
                    0 <= i < split_ws(strip_nul(b@)).len() ==> valid_utf8(
                        #[trigger] split_ws(strip_nul(b@))[i],
                    )))) && e@ == "keygen: phrase atom bytes are not valid UTF-8"@
            },
        },
{
    let ghost orig0 = reply@[0];
    let mut reply = reply;
    let first = reply.remove(0);
    let payload = peek_payload(first)?;
    match payload {
        KernelValue::Atom(b) => {
            let stripped = strip_nul_bytes(&b);
            let ghost sb = stripped@;
            match bytes_to_string(clone_bytes(&stripped)) {
                Some(_) => {},
                None => {
                    return Err(
                        String::from_str("keygen: phrase atom bytes are not valid UTF-8"),
                    );
                },
            }
            let word_bytes = split_ws_bytes(&stripped);
            let ghost ws = split_ws(sb);
            let mut words: Vec<String> = Vec::new();
            let mut i: usize = 0;
            let n = word_bytes.len();
            #[verifier::loop_isolation(false)]
            while i < n
                invariant
                    n == word_bytes@.len(),
                    i <= n,
                    word_bytes@.map_values(|w: Vec<u8>| w@) == ws,
                    words@.len() == i,
                    forall|j: int|
                        0 <= j < i ==> valid_utf8(#[trigger] ws[j]) && words@[j]@ == decode_utf8(
                            ws[j],
                        ),
                decreases n - i,
            {
                proof {
                    assert(word_bytes@[i as int]@ == ws[i as int]);
                }
                match bytes_to_string(clone_bytes(&word_bytes[i])) {
                    Some(w) => {
                        words.push(w);
                    },
                    None => {
                        proof {
                            assert(sb == strip_nul(b@));
                            assert(!valid_utf8(split_ws(strip_nul(b@))[i as int]));
                        }
                        return Err(
                            String::from_str("keygen: phrase atom bytes are not valid UTF-8"),
                        );
                    },
                }
                i += 1;
            }
            Ok(words)
        },
        _ => Err(String::from_str("seedphrase: phrase is not an atom")),
    }
}

/// Reads a notes reply: the payload atom's bytes up to the kernel's
/// zero-byte padding. The caller decodes them (they carry the note list
/// in a serialized form) into `Note` values.
pub fn notes_payload_bytes(reply: Vec<KernelValue>) -> (r: Result<Vec<u8>, String>)
    requires
        reply@.len() > 0,
    ensures
        match r {
            Ok(b) => reply@[0].peek_payload_spec() matches Some(p) && (p matches KernelValue::Atom(
                raw,
            ) && b@ == until_nul(raw@)),
            Err(e) => {
                ||| reply@[0].peek_payload_spec() is None && e@ == "invalid noun"@
                ||| (reply@[0].peek_payload_spec() matches Some(p) && !(p is Atom)) && e@
                    == "notes: notes is not an atom"@
            },
        },
{
    let mut reply = reply;
    let first = reply.remove(0);
    let payload = peek_payload(first)?;
    match payload {
        KernelValue::Atom(b) => Ok(atom_text_bytes(&b)),
        _ => Err(String::from_str("notes: notes is not an atom")),
    }
}

fn clone_bytes(v: &Vec<u8>) -> (r: Vec<u8>)
    ensures
        r@ == v@,
{
    let mut r: Vec<u8> = Vec::new();
    let mut i: usize = 0;
    while i < v.len()
        invariant
            i <= v@.len(),
            r@ == v@.take(i as int),
        decreases v@.len() - i,
    {
        r.push(v[i]);
        proof {
            assert(v@.take(i + 1) =~= v@.take(i as int).push(v@[i as int]));
        }
        i += 1;
    }
    proof {
        assert(v@.take(v@.len() as int) =~= v@);
    }
    r
}

} // verus!
