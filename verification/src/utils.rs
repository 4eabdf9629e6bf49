//! The state of a device and the overcommit policy of the kernel.

use crate::number;
use crate::text;
use vstd::prelude::*;

verus! {

/// What the file `power_state` of a device said.
#[derive(Debug)]
pub enum PowerState {
    /// The device has no such file.
    Unsupported,
    /// The file is there and could not be read as text.
    Unreadable,
    /// The text of the file.
    Reported(String),
}

/// Whether `s`, without the white space at both ends, is `word`.
fn is_word(s: &str, word: &str) -> (r: bool)
    ensures
        r == (text::trimmed(s@) == word@),
{
    let chars = text::chars_of(s);
    let word = text::chars_of(word);
    text::same_text(text::trim(chars.as_slice()), word.as_slice())
}

/// Whether a device is awake, so that its temperature should be read: it must be in the
/// state `D0`, or in the state `unknown`, which the kernel module zenpower3 reports. A device
/// that does not support `power_state` does not count as awake. One whose state cannot be
/// read does.
pub fn is_device_awake(power_state: &PowerState) -> (r: bool)
    ensures
        r == match *power_state {
            PowerState::Unsupported => false,
            PowerState::Unreadable => true,
            PowerState::Reported(state) => text::trimmed(state@) == "D0"@ || text::trimmed(state@)
                == "unknown"@,
        },
{
    match power_state {
        PowerState::Unsupported => false,
        PowerState::Unreadable => true,
        PowerState::Reported(state) => is_word(state.as_str(), "D0") || is_word(
            state.as_str(),
            "unknown",
        ),
    }
}

/// The mode under which the kernel refuses to overcommit memory.
pub const STRICT_OVERCOMMIT: u8 = 2;

/// The overcommit mode that the text of `/proc/sys/vm/overcommit_memory` states. A file that
/// could not be read, and one that holds no number of this size, stand for the default, zero.
pub open spec fn overcommit_mode_of(contents: Option<Seq<char>>) -> u8 {
    match contents {
        Some(s) => match number::u8_of(text::trimmed(s)) {
            Ok(mode) => mode,
            Err(_) => 0,
        },
        None => 0,
    }
}

/// The text of `s`.
pub open spec fn text_of(s: Option<&str>) -> Option<Seq<char>> {
    match s {
        Some(s) => Some(s@),
        None => None,
    }
}

/// The overcommit mode of the kernel, from the time at which it was first read. An operator
/// may change the mode later: what was read first stands.
#[derive(Debug)]
pub struct OvercommitCache {
    mode: Option<u8>,
}

impl View for OvercommitCache {
    type V = Option<u8>;

    closed spec fn view(&self) -> Option<u8> {
        self.mode
    }
}

impl OvercommitCache {
    /// A cache for a mode that has not been read yet.
    pub fn new() -> (r: OvercommitCache)
        ensures
            r@ is None,
    {
        OvercommitCache { mode: None }
    }

    /// Whether the mode has been read, so that the file is not needed any more.
    pub fn is_read(&self) -> (r: bool)
        ensures
            r == (self@ is Some),
    {
        self.mode.is_some()
    }
}

/// The mode that stands where the cache holds `cached` and the file now reads `contents`.
pub open spec fn standing_mode(cached: Option<u8>, contents: Option<Seq<char>>) -> u8 {
    match cached {
        Some(mode) => mode,
        None => overcommit_mode_of(contents),
    }
}

/// The overcommit mode of the kernel: 0 is the heuristic, 1 always overcommits, and 2 never
/// exceeds `CommitLimit`. It is taken from `contents`, the text of
/// `/proc/sys/vm/overcommit_memory`, the first time, and from the cache ever after.
pub fn overcommit_mode(cache: &mut OvercommitCache, contents: Option<&str>) -> (r: u8)
    ensures
        r == standing_mode(old(cache)@, text_of(contents)),
        old(cache)@ matches Some(mode) ==> r == mode,
        final(cache)@ == Some(r),
{
    if let Some(mode) = cache.mode {
        return mode;
    }
    let mode: u8 = match contents {
        Some(s) => {
            let chars = text::chars_of(s);
            match number::parse_u8(text::trim(chars.as_slice())) {
                Ok(mode) => mode,
                Err(_) => 0,
            }
        },
        None => 0,
    };
    cache.mode = Some(mode);
    mode
}

/// Whether the kernel refuses to overcommit memory. The mode is found as by
/// [`overcommit_mode`].
pub fn is_strict_overcommit(cache: &mut OvercommitCache, contents: Option<&str>) -> (r: bool)
    ensures
        r == (standing_mode(old(cache)@, text_of(contents)) == STRICT_OVERCOMMIT),
        old(cache)@ matches Some(mode) ==> r == (mode == 2),
        final(cache)@ == Some(standing_mode(old(cache)@, text_of(contents))),
{
    overcommit_mode(cache, contents) == STRICT_OVERCOMMIT
}

/// The modes that are found one after the other, where the file reads as given each time.
pub open spec fn modes(cached: Option<u8>, reads: Seq<Option<Seq<char>>>) -> Seq<u8>
    decreases reads.len(),
{
    if reads.len() == 0 {
        seq![]
    } else {
        let mode = standing_mode(cached, reads[0]);
        seq![mode] + modes(Some(mode), reads.drop_first())
    }
}

proof fn lemma_cached_mode_stands(mode: u8, reads: Seq<Option<Seq<char>>>)
    ensures
        modes(Some(mode), reads).len() == reads.len(),
        forall|i: int| 0 <= i < reads.len() ==> #[trigger] modes(Some(mode), reads)[i] == mode,
    decreases reads.len(),
{
    if reads.len() > 0 {
        let rest = reads.drop_first();
        lemma_cached_mode_stands(mode, rest);
        let all = modes(Some(mode), reads);
        assert forall|i: int| 0 <= i < reads.len() implies #[trigger] all[i] == mode by {
            if i > 0 {
                assert(all[i] == modes(Some(mode), rest)[i - 1]);
            }
        }
    }
}

/// The mode is that of the first read, whatever the file says later.
pub proof fn theorem_first_mode_stands(reads: Seq<Option<Seq<char>>>)
    requires
        reads.len() > 0,
    ensures
        modes(None, reads).len() == reads.len(),
        forall|i: int|
            0 <= i < reads.len() ==> #[trigger] modes(None, reads)[i] == overcommit_mode_of(
                reads[0],
            ),
{
    let mode = overcommit_mode_of(reads[0]);
    let rest = reads.drop_first();
    lemma_cached_mode_stands(mode, rest);
    let all = modes(None, reads);
    assert forall|i: int| 0 <= i < reads.len() implies #[trigger] all[i] == mode by {
        if i > 0 {
            assert(all[i] == modes(Some(mode), rest)[i - 1]);
        }
    }
}

/// A device is awake exactly where the state between the white space is `D0` or `unknown`.
pub proof fn theorem_device_awake(
    before: Seq<char>,
    core: Seq<char>,
    after: Seq<char>,
    state: String,
    r: bool,
)
    requires
        text::all_spaces(before),
        text::all_spaces(after),
        core.len() == 0 || (!text::is_space(core[0]) && !text::is_space(core.last())),
        state@ == before + core + after,
        call_ensures(is_device_awake, (&PowerState::Reported(state),), r),
    ensures
        r <==> core == seq!['D', '0'] || core == seq!['u', 'n', 'k', 'n', 'o', 'w', 'n'],
{
    text::theorem_trimmed(before, core, after);
    reveal_strlit("D0");
    reveal_strlit("unknown");
    assert("D0"@ =~= seq!['D', '0']);
    assert("unknown"@ =~= seq!['u', 'n', 'k', 'n', 'o', 'w', 'n']);
}

/// A device without the file is not awake, and one whose file cannot be read is.
pub proof fn theorem_device_without_state(r: bool)
    ensures
        call_ensures(is_device_awake, (&PowerState::Unsupported,), r) ==> !r,
        call_ensures(is_device_awake, (&PowerState::Unreadable,), r) ==> r,
{
}

/// The mode is the number between the white space, and zero where there is none that a `u8`
/// can hold.
pub proof fn theorem_mode_of_text(before: Seq<char>, core: Seq<char>, after: Seq<char>)
    requires
        text::all_spaces(before),
        text::all_spaces(after),
        core.len() == 0 || (!text::is_space(core[0]) && !text::is_space(core.last())),
    ensures
        overcommit_mode_of(None) == 0,
        number::u8_of(core) matches Ok(mode) ==> overcommit_mode_of(Some(before + core + after))
            == mode,
        number::u8_of(core) is Err ==> overcommit_mode_of(Some(before + core + after)) == 0,
{
    text::theorem_trimmed(before, core, after);
}

/// The decimal notation of a mode, with white space around it, states that mode, and only two
/// is strict.
pub proof fn theorem_mode_of_decimal(before: Seq<char>, mode: u8, after: Seq<char>)
    requires
        text::all_spaces(before),
        text::all_spaces(after),
    ensures
        overcommit_mode_of(Some(before + number::decimal(mode as nat) + after)) == mode,
        STRICT_OVERCOMMIT == 2,
{
    let d = number::decimal(mode as nat);
    number::theorem_decimal(mode as nat);
    number::theorem_parse_decimal_small(mode as u32);
    assert(number::is_digit(d[0]) && number::is_digit(d[d.len() - 1]));
    theorem_mode_of_text(before, d, after);
}

/// A mode that was read stands, and otherwise the text counts.
pub proof fn theorem_standing_mode(mode: u8, contents: Option<Seq<char>>, s: &str)
    ensures
        standing_mode(Some(mode), contents) == mode,
        standing_mode(None, contents) == overcommit_mode_of(contents),
        text_of(Some(s)) == Some(s@),
        text_of(None) is None,
{
}

/// Every call gives the mode that stands, and leaves it in the cache for all that follow.
pub proof fn theorem_mode_is_kept(contents: Option<&str>, mode: u8, strict: bool)
    ensures
        forall|cache: &mut OvercommitCache| #[trigger]
            call_ensures(overcommit_mode, (cache, contents), mode) ==> {
                &&& mode == standing_mode((*cache)@, text_of(contents))
                &&& (*final(cache))@ == Some(mode)
            },
        forall|cache: &mut OvercommitCache| #[trigger]
            call_ensures(is_strict_overcommit, (cache, contents), strict) ==> {
                &&& strict == (standing_mode((*cache)@, text_of(contents)) == 2)
                &&& (*final(cache))@ == Some(standing_mode((*cache)@, text_of(contents)))
            },
{
}

} // verus!
