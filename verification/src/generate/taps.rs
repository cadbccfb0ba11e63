//! Seam taps: one line per frame with hashes of what crosses between stages, so that two runs can
//! be held against each other line by line.
use vstd::prelude::*;
use vstd::string::StringExecFns;
use crate::text;
use crate::text::{append_decimal, append_hex};

verus! {

/// Where taps go and whether they are taken at all.
#[derive(Debug)]
pub struct Taps<K> {
    enabled: bool,
    requested: bool,
    sink: Option<K>,
}

/// Where a line goes.
pub enum TapRoute<'a, K> {
    /// Nowhere: no taps are taken.
    Silent,
    /// To the installed sink.
    Sink(&'a K),
    /// To standard error.
    Standard,
}

impl<K> Taps<K> {
    /// Whether taps were switched on.
    pub closed spec fn switched_on(&self) -> bool {
        self.enabled
    }

    /// Whether the process asked for taps when it started.
    pub closed spec fn asked_for(&self) -> bool {
        self.requested
    }

    /// The installed sink.
    pub closed spec fn installed(&self) -> Option<K> {
        self.sink
    }

    /// That taps are taken.
    pub open spec fn active(&self) -> bool {
        self.switched_on() || self.asked_for()
    }

    /// No taps, unless the process asked for them when it started.
    pub fn new(requested: bool) -> (taps: Self)
        ensures
            !taps.switched_on(),
            taps.asked_for() == requested,
            taps.installed() is None,
    {
        Taps { enabled: false, requested, sink: None }
    }

    /// Whether taps are taken.
    pub fn taps_active(&self) -> (active: bool)
        ensures
            active == self.active(),
    {
        self.enabled || self.requested
    }

    /// Where a line goes.
    pub fn route(&self) -> (route: TapRoute<'_, K>)
        ensures
            match route {
                TapRoute::Silent => !self.active(),
                TapRoute::Sink(sink) => self.active() && self.installed() == Some(*sink),
                TapRoute::Standard => self.active() && self.installed() is None,
            },
    {
        if !self.taps_active() {
            return TapRoute::Silent;
        }
        match &self.sink {
            Some(sink) => TapRoute::Sink(sink),
            None => TapRoute::Standard,
        }
    }
}

/// Switches taps on or off.
pub fn set_taps_enabled<K>(taps: &mut Taps<K>, enabled: bool)
    ensures
        final(taps).switched_on() == enabled,
        final(taps).asked_for() == old(taps).asked_for(),
        final(taps).installed() == old(taps).installed(),
{
    taps.enabled = enabled;
}

/// Installs a sink. Only the first one counts.
pub fn install_tap_sink<K>(taps: &mut Taps<K>, sink: K)
    ensures
        final(taps).switched_on() == old(taps).switched_on(),
        final(taps).asked_for() == old(taps).asked_for(),
        final(taps).installed() == match old(taps).installed() {
            Some(first) => Some(first),
            None => Some(sink),
        },
{
    if taps.sink.is_none() {
        taps.sink = Some(sink);
    }
}

/// What the hash starts from.
pub const TAP_HASH_BASIS: u64 = 0xcbf2_9ce4_8422_2325;

/// What every byte multiplies the hash by.
pub const TAP_HASH_PRIME: u64 = 0x100_0000_01b3;

/// The hash after one more byte.
pub open spec fn hash_byte(hash: u64, byte: u8) -> u64 {
    (hash ^ (byte as u64)).wrapping_mul(TAP_HASH_PRIME)
}

/// Byte `i` of a word, low byte first.
pub open spec fn byte_of(word: u32, i: int) -> u8 {
    if i == 0 {
        (word % 256) as u8
    } else if i == 1 {
        (word / 256 % 256) as u8
    } else if i == 2 {
        (word / 65_536 % 256) as u8
    } else {
        (word / 16_777_216) as u8
    }
}

/// The hash of the first `n` words, byte by byte.
pub open spec fn hash_words(words: Seq<u32>, n: int) -> u64
    decreases n,
{
    if n <= 0 {
        TAP_HASH_BASIS
    } else {
        let hash = hash_words(words, n - 1);
        let hash = hash_byte(hash, byte_of(words[n - 1], 0));
        let hash = hash_byte(hash, byte_of(words[n - 1], 1));
        let hash = hash_byte(hash, byte_of(words[n - 1], 2));
        hash_byte(hash, byte_of(words[n - 1], 3))
    }
}

/// Takes in one more byte.
fn mix_byte(hash: u64, byte: u8) -> (mixed: u64)
    ensures
        mixed == hash_byte(hash, byte),
{
    (hash ^ (byte as u64)).wrapping_mul(TAP_HASH_PRIME)
}

/// FNV-1a over words, low byte first: the same words have the same hash everywhere.
pub fn tap_hash_u32(words: &[u32]) -> (hash: u64)
    ensures
        hash == hash_words(words@, words@.len() as int),
{
    let mut hash: u64 = TAP_HASH_BASIS;
    for i in 0..words.len()
        invariant
            hash == hash_words(words@, i as int),
    {
        let word: u32 = words[i];
        hash = mix_byte(hash, (word % 256) as u8);
        hash = mix_byte(hash, (word / 256 % 256) as u8);
        hash = mix_byte(hash, (word / 65_536 % 256) as u8);
        hash = mix_byte(hash, (word / 16_777_216) as u8);
    }
    hash
}

/// The line of a prompt: the hashes of the parked hidden state and of the parked logits.
pub fn prefill_tap(hidden: u64, logits: u64) -> (line: String)
    ensures
        line@ == "ftts-tap prefill ph="@ + text::hex_of(hidden as nat, 16) + " plog="@
            + text::hex_of(logits as nat, 16),
{
    let mut line = String::from_str("ftts-tap prefill ph=");
    append_hex(&mut line, hidden, 16);
    line.append(" plog=");
    append_hex(&mut line, logits, 16);
    line
}

/// The line of a frame: its index, the hash of the logits it was selected from, its primary code,
/// and the hashes of its codes, of the next hidden state and of the next logits.
pub fn frame_tap(
    index: usize,
    entry_logits: u64,
    primary: u32,
    codes: u64,
    hidden: u64,
    logits: u64,
) -> (line: String)
    ensures
        line@ == "ftts-tap f="@ + text::decimal_of(index as nat) + " pl="@ + text::hex_of(
            entry_logits as nat,
            16,
        ) + " p="@ + text::decimal_of(primary as nat) + " r="@ + text::hex_of(codes as nat, 16)
            + " nh="@ + text::hex_of(hidden as nat, 16) + " nl="@ + text::hex_of(
            logits as nat,
            16,
        ),
{
    let mut line = String::from_str("ftts-tap f=");
    append_decimal(&mut line, index);
    line.append(" pl=");
    append_hex(&mut line, entry_logits, 16);
    line.append(" p=");
    append_decimal(&mut line, primary as usize);
    line.append(" r=");
    append_hex(&mut line, codes, 16);
    line.append(" nh=");
    append_hex(&mut line, hidden, 16);
    line.append(" nl=");
    append_hex(&mut line, logits, 16);
    line
}

} // verus!
