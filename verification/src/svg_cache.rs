//! Names and rules of the drawings that are kept on disk, and of the snapshots that they are
//! made from.

use crate::text::{same, to_decimal, to_hex};
use crate::ui_text::path_key;
use vstd::prelude::*;

verus! {

/// The hash of no bytes.
pub const HASH_START: u64 = 0xcbf2_9ce4_8422_2325;

/// What the hash is multiplied by at each byte.
pub const HASH_FACTOR: u64 = 0x100_0000_01b3;

/// The hash of the first `n` bytes: each byte is mixed in, and the sum multiplied, modulo 2^64.
pub open spec fn hash_upto(bytes: Seq<u8>, n: nat) -> u64
    decreases n,
{
    if n == 0 {
        HASH_START
    } else {
        let mixed = hash_upto(bytes, (n - 1) as nat) ^ (bytes[n - 1] as u64);
        ((mixed * HASH_FACTOR) % 0x1_0000_0000_0000_0000) as u64
    }
}

/// The hash of a path's characters in UTF-8.
pub open spec fn path_hash(path: Seq<char>) -> u64 {
    let bytes = vstd::utf8::encode_utf8(path);
    hash_upto(bytes, bytes.len())
}

/// A number for a file, the same in every run: the hash of what its path resolves to.
pub fn stable_path_hash(path: &str, canonical: &Option<String>) -> (r: u64)
    ensures
        r == path_hash(crate::ui_text::key_of(path@, crate::text::opt_view(*canonical))),
{
    let key = path_key(path, canonical);
    let bytes = key.as_str().as_bytes();
    let mut hash: u64 = HASH_START;
    let mut i: usize = 0;
    while i < bytes.len()
        invariant
            i <= bytes@.len(),
            hash == hash_upto(bytes@, i as nat),
        decreases bytes@.len() - i,
    {
        let mixed: u64 = hash ^ (bytes[i] as u64);
        hash = mixed.wrapping_mul(HASH_FACTOR);
        i = i + 1;
    }
    hash
}

/// The name of the file that keeps a drawing: the hash of the schematic's path, when it was
/// changed, in nanoseconds, and how long it is, in hexadecimal.
pub open spec fn kept_name(hash: nat, stamp: nat, length: nat) -> Seq<char> {
    crate::text::hex(hash, 16) + "-"@ + crate::text::hex(stamp, 32) + "-"@ + crate::text::hex(
        length,
        16,
    ) + ".svg"@
}

/// The name of the file that keeps the drawing of a schematic.
pub fn cache_name(path: &str, canonical: &Option<String>, stamp: u128, length: u64) -> (r: String)
    ensures
        r@ == kept_name(
            path_hash(crate::ui_text::key_of(path@, crate::text::opt_view(*canonical))) as nat,
            stamp as nat,
            length as nat,
        ),
{
    let mut r = to_hex(stable_path_hash(path, canonical) as u128, 16);
    r.append("-");
    r.append(to_hex(stamp, 32).as_str());
    r.append("-");
    r.append(to_hex(length as u128, 16).as_str());
    r.append(".svg");
    r
}

proof fn lemma_hex_length(n: nat, width: nat)
    ensures
        crate::text::hex(n, width).len() == width,
    decreases width,
{
    if width > 0 {
        lemma_hex_length(n / 16, (width - 1) as nat);
    }
}

pub open spec fn sixteen(width: nat) -> nat
    decreases width,
{
    if width == 0 {
        1
    } else {
        16 * sixteen((width - 1) as nat)
    }
}

/// A numeral that has room for its number tells it from every other.
proof fn lemma_hex_injective(a: nat, b: nat, width: nat)
    requires
        a < sixteen(width),
        b < sixteen(width),
        crate::text::hex(a, width) == crate::text::hex(b, width),
    ensures
        a == b,
    decreases width,
{
    if width > 0 {
        let x = crate::text::hex(a, width);
        let y = crate::text::hex(b, width);
        assert(x.drop_last() =~= crate::text::hex(a / 16, (width - 1) as nat));
        assert(y.drop_last() =~= crate::text::hex(b / 16, (width - 1) as nat));
        assert(x.last() == crate::text::hex_digit((a % 16) as int));
        assert(y.last() == crate::text::hex_digit((b % 16) as int));
        assert(a % 16 == b % 16);
        lemma_hex_injective(a / 16, b / 16, (width - 1) as nat);
    }
}

/// Two drawings are kept under one name only where hash, time and length agree: a schematic
/// that was changed does not get the drawing of what it was.
pub proof fn kept_names_are_distinct(
    hash: u64,
    stamp: u128,
    length: u64,
    other_hash: u64,
    other_stamp: u128,
    other_length: u64,
)
    requires
        kept_name(hash as nat, stamp as nat, length as nat) == kept_name(
            other_hash as nat,
            other_stamp as nat,
            other_length as nat,
        ),
    ensures
        hash == other_hash,
        stamp == other_stamp,
        length == other_length,
{
    let a = kept_name(hash as nat, stamp as nat, length as nat);
    let b = kept_name(other_hash as nat, other_stamp as nat, other_length as nat);
    reveal_strlit("-");
    lemma_hex_length(hash as nat, 16);
    lemma_hex_length(other_hash as nat, 16);
    lemma_hex_length(stamp as nat, 32);
    lemma_hex_length(other_stamp as nat, 32);
    lemma_hex_length(length as nat, 16);
    lemma_hex_length(other_length as nat, 16);
    assert(a.subrange(0, 16) =~= crate::text::hex(hash as nat, 16));
    assert(b.subrange(0, 16) =~= crate::text::hex(other_hash as nat, 16));
    assert(a.subrange(17, 49) =~= crate::text::hex(stamp as nat, 32));
    assert(b.subrange(17, 49) =~= crate::text::hex(other_stamp as nat, 32));
    assert(a.subrange(50, 66) =~= crate::text::hex(length as nat, 16));
    assert(b.subrange(50, 66) =~= crate::text::hex(other_length as nat, 16));
    reveal_with_fuel(sixteen, 33);
    lemma_hex_injective(hash as nat, other_hash as nat, 16);
    lemma_hex_injective(stamp as nat, other_stamp as nat, 32);
    lemma_hex_injective(length as nat, other_length as nat, 16);
}

/// The name under which a drawing is written before it takes its own.
pub fn temporary_name(target: &str, process: u32, sequence: u64) -> (r: String)
    ensures
        r@ == "."@ + target@ + "."@ + crate::text::decimal(process as nat) + "."@
            + crate::text::decimal(sequence as nat) + ".tmp"@,
{
    let mut r = ".".to_owned();
    r.append(target);
    r.append(".");
    r.append(to_decimal(process as u128).as_str());
    r.append(".");
    r.append(to_decimal(sequence as u128).as_str());
    r.append(".tmp");
    r
}

/// A kept drawing may be used: it is newer than the schematic, and of a time that is known.
/// Times are nanoseconds after 1970.
pub fn is_fresh(kept_at: i128, changed_at: i128) -> (r: bool)
    ensures
        r == (kept_at > changed_at && kept_at != 0),
{
    kept_at > changed_at && kept_at != 0
}

/// A file of the project's directory that a snapshot needs: a table of libraries, a project
/// or a library of symbols.
pub fn is_sidecar(name: &str, suffix: &Option<String>) -> (r: bool)
    ensures
        r == (name@ == "sym-lib-table"@ || name@ == "fp-lib-table"@ || match *suffix {
            Some(s) => s@ == "kicad_pro"@ || s@ == "kicad_sym"@,
            None => false,
        }),
{
    same(name, "sym-lib-table") || same(name, "fp-lib-table") || match suffix {
        Some(s) => same(s.as_str(), "kicad_pro") || same(s.as_str(), "kicad_sym"),
        None => false,
    }
}

/// The last of the first `n` copies that is one of the sheet.
pub open spec fn last_copy(is_sheet: Seq<bool>, n: nat) -> Option<int>
    decreases n,
{
    if n == 0 {
        None
    } else if is_sheet[n - 1] {
        Some(n - 1)
    } else {
        last_copy(is_sheet, (n - 1) as nat)
    }
}

/// Which copy of a snapshot is drawn, by whether each is one of the sheet: the last that is.
pub fn find_drawn_copy(is_sheet: &Vec<bool>, schematic: &str) -> (r: Result<usize, String>)
    ensures
        match (r, last_copy(is_sheet@, is_sheet@.len())) {
            (Ok(i), Some(k)) => i == k && i < is_sheet@.len(),
            (Err(error), None) => error@ == "sheet "@ + schematic@
                + " is absent from the discovered hierarchy"@,
            _ => false,
        },
{
    let mut n: usize = is_sheet.len();
    while n > 0
        invariant
            n <= is_sheet@.len(),
            last_copy(is_sheet@, is_sheet@.len()) == last_copy(is_sheet@, n as nat),
        decreases n,
    {
        if is_sheet[n - 1] {
            return Ok(n - 1);
        }
        n = n - 1;
    }
    let mut error = "sheet ".to_owned();
    error.append(schematic);
    error.append(" is absent from the discovered hierarchy");
    Err(error)
}

/// The name of the directory of a snapshot.
pub open spec fn snapshot_directory(process: nat, sequence: nat) -> Seq<char> {
    "konnect-schematic-fallback-"@ + crate::text::decimal(process) + "-"@ + crate::text::decimal(
        sequence,
    )
}

/// The name of the directory of a snapshot.
pub fn snapshot_name(process: u32, sequence: u64) -> (r: String)
    ensures
        r@ == snapshot_directory(process as nat, sequence as nat),
{
    let mut r = "konnect-schematic-fallback-".to_owned();
    r.append(to_decimal(process as u128).as_str());
    r.append("-");
    r.append(to_decimal(sequence as u128).as_str());
    r
}

/// The numerals of two numbers differ where the numbers do.
pub proof fn decimals_are_distinct(a: nat, b: nat)
    requires
        crate::text::decimal(a) == crate::text::decimal(b),
    ensures
        a == b,
    decreases a,
{
    let x = crate::text::decimal(a);
    let y = crate::text::decimal(b);
    lemma_decimal_length(a);
    lemma_decimal_length(b);
    assert(x.last() == crate::text::digit((a % 10) as int));
    assert(y.last() == crate::text::digit((b % 10) as int));
    assert(a % 10 == b % 10);
    if a >= 10 && b >= 10 {
        assert(x.drop_last() =~= crate::text::decimal(a / 10));
        assert(y.drop_last() =~= crate::text::decimal(b / 10));
        decimals_are_distinct(a / 10, b / 10);
    } else if a >= 10 {
        lemma_decimal_length(a / 10);
        assert(x.len() == y.len());
    } else if b >= 10 {
        lemma_decimal_length(b / 10);
        assert(x.len() == y.len());
    }
}

proof fn lemma_decimal_length(n: nat)
    ensures
        crate::text::decimal(n).len() >= 1,
        n >= 10 ==> crate::text::decimal(n).len() >= 2,
    decreases n,
{
    if n >= 10 {
        lemma_decimal_length(n / 10);
    }
}

/// One process never uses a snapshot's directory twice.
pub proof fn snapshots_are_distinct(process: nat, sequence: nat, other: nat)
    requires
        sequence != other,
    ensures
        snapshot_directory(process, sequence) != snapshot_directory(process, other),
{
    let head = "konnect-schematic-fallback-"@ + crate::text::decimal(process) + "-"@;
    if snapshot_directory(process, sequence) == snapshot_directory(process, other) {
        let a = snapshot_directory(process, sequence);
        let b = snapshot_directory(process, other);
        assert(a.skip(head.len() as int) =~= crate::text::decimal(sequence));
        assert(b.skip(head.len() as int) =~= crate::text::decimal(other));
        decimals_are_distinct(sequence, other);
    }
}

/// The program that draws what this viewer cannot: the one that the user named, or the first
/// of the usual places that holds one, or whatever the system finds under its name.
pub fn choose_program(named: &Option<String>, candidates: &Vec<String>, present: &Vec<bool>) -> (r:
    String)
    requires
        candidates@.len() == present@.len(),
    ensures
        match *named {
            Some(n) => r@ == n@,
            None => {
                ||| r@ == "kicad-cli"@ && forall|k: int|
                    0 <= k < present@.len() ==> !#[trigger] present@[k]
                ||| exists|i: int|
                    0 <= i < present@.len() && #[trigger] present@[i] && r@ == candidates@[i]@ && forall|
                        k: int,
                    |
                        0 <= k < i ==> !#[trigger] present@[k]
            },
        },
{
    if let Some(n) = named {
        return n.clone();
    }
    let mut i: usize = 0;
    while i < candidates.len()
        invariant
            candidates@.len() == present@.len(),
            *named is None,
            i <= present@.len(),
            forall|k: int| 0 <= k < i ==> !#[trigger] present@[k],
        decreases present@.len() - i,
    {
        if present[i] {
            return candidates[i].clone();
        }
        i = i + 1;
    }
    "kicad-cli".to_owned()
}

/// A step on the way to the drawing of a sheet by the other program.
#[derive(Clone, Copy, PartialEq, Eq, Structural, Debug)]
pub enum ExportStep {
    /// The kept drawing is read, unless it is out of date.
    Load,
    /// The sheets of the project are copied.
    CopySheets,
    /// What belongs to the project is copied.
    CopySidecars,
    /// The other program draws the copy.
    Run,
    /// What it has drawn is read.
    Read,
    /// The copies are removed; there is a drawing, or there is none.
    Clean(bool),
    /// The drawing is kept.
    Store,
    /// There is a drawing, or there is none.
    Done(bool),
}

/// The step that follows one that succeeded or failed.
pub open spec fn step_after(step: ExportStep, succeeded: bool) -> ExportStep {
    match step {
        ExportStep::Load => if succeeded {
            ExportStep::Done(true)
        } else {
            ExportStep::CopySheets
        },
        ExportStep::CopySheets => if succeeded {
            ExportStep::CopySidecars
        } else {
            ExportStep::Clean(false)
        },
        ExportStep::CopySidecars => if succeeded {
            ExportStep::Run
        } else {
            ExportStep::Clean(false)
        },
        ExportStep::Run => if succeeded {
            ExportStep::Read
        } else {
            ExportStep::Clean(false)
        },
        ExportStep::Read => ExportStep::Clean(succeeded),
        ExportStep::Clean(drawn) => if drawn {
            ExportStep::Store
        } else {
            ExportStep::Done(false)
        },
        ExportStep::Store => ExportStep::Done(succeeded),
        ExportStep::Done(drawn) => ExportStep::Done(drawn),
    }
}

/// The step that follows one that succeeded or failed.
pub fn next_step(step: ExportStep, succeeded: bool) -> (r: ExportStep)
    ensures
        r == step_after(step, succeeded),
{
    match step {
        ExportStep::Load => {
            if succeeded {
                ExportStep::Done(true)
            } else {
                ExportStep::CopySheets
            }
        },
        ExportStep::CopySheets => {
            if succeeded {
                ExportStep::CopySidecars
            } else {
                ExportStep::Clean(false)
            }
        },
        ExportStep::CopySidecars => {
            if succeeded {
                ExportStep::Run
            } else {
                ExportStep::Clean(false)
            }
        },
        ExportStep::Run => {
            if succeeded {
                ExportStep::Read
            } else {
                ExportStep::Clean(false)
            }
        },
        ExportStep::Read => ExportStep::Clean(succeeded),
        ExportStep::Clean(drawn) => {
            if drawn {
                ExportStep::Store
            } else {
                ExportStep::Done(false)
            }
        },
        ExportStep::Store => ExportStep::Done(succeeded),
        ExportStep::Done(drawn) => ExportStep::Done(drawn),
    }
}

/// Where the first `n` steps lead, by whether each succeeds.
pub open spec fn step_reached(outcomes: Seq<bool>, n: nat) -> ExportStep
    decreases n,
{
    if n == 0 {
        ExportStep::Load
    } else {
        step_after(step_reached(outcomes, (n - 1) as nat), outcomes[n - 1])
    }
}

/// An export that did not find a kept drawing removes its copies before it ends, whatever fails.
pub proof fn an_export_removes_its_copies(outcomes: Seq<bool>, n: nat)
    requires
        n > 0,
        !outcomes[0],
        step_reached(outcomes, n) is Store || step_reached(outcomes, n) is Done,
    ensures
        exists|i: nat| i < n && #[trigger] step_reached(outcomes, i) is Clean,
    decreases n,
{
    reveal_with_fuel(step_reached, 2);
    let before = step_reached(outcomes, (n - 1) as nat);
    if n == 1 {
        assert(step_reached(outcomes, 0) == ExportStep::Load);
    } else if before is Store || before is Done {
        an_export_removes_its_copies(outcomes, (n - 1) as nat);
        let i = choose|i: nat| i < n - 1 && #[trigger] step_reached(outcomes, i) is Clean;
        assert(step_reached(outcomes, i) is Clean);
    } else {
        lemma_load_is_first(outcomes, (n - 1) as nat);
        assert(before is Clean);
    }
}

proof fn lemma_load_is_first(outcomes: Seq<bool>, n: nat)
    requires
        n > 0,
    ensures
        !(step_reached(outcomes, n) is Load),
{
}

/// An export ends after seven steps at most.
pub proof fn an_export_ends(outcomes: Seq<bool>)
    ensures
        step_reached(outcomes, 7) is Done,
{
    reveal_with_fuel(step_reached, 8);
}

/// What takes the place of a sheet that is not drawn in full.
pub struct Fallback {
    /// The drawing by the other program is shown.
    pub shown: bool,
    /// Why it is not.
    pub error: Option<String>,
}

/// What takes the place of a sheet: nothing for one that is drawn in full, else the drawing
/// by the other program, or the reason that there is none.
pub fn choose_fallback(
    complete: bool,
    exported: &Result<(), String>,
    parsed: &Result<(), String>,
) -> (r: Fallback)
    ensures
        r.shown == (!complete && exported is Ok && parsed is Ok),
        crate::text::opt_view(r.error) == (if complete {
            None
        } else {
            match *exported {
                Err(e) => Some(e@),
                Ok(_) => match *parsed {
                    Err(e) => Some("KiCad SVG parse failed: "@ + e@),
                    Ok(_) => None,
                },
            }
        }),
{
    if complete {
        return Fallback { shown: false, error: None };
    }
    match exported {
        Err(e) => Fallback { shown: false, error: Some(e.clone()) },
        Ok(_) => match parsed {
            Err(e) => {
                let mut message = "KiCad SVG parse failed: ".to_owned();
                message.append(e.as_str());
                Fallback { shown: false, error: Some(message) }
            },
            Ok(_) => Fallback { shown: true, error: None },
        },
    }
}

} // verus!
