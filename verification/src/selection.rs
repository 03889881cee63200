//! The X11 `CLIPBOARD` selection: how the owner answers a conversion
//! request, when it takes the selection back after losing it, and how a
//! requestor reads the converted text out of its window property.
//!
//! Atoms are the numbers the X server gave the interned names; `0` is `None`.
use vstd::prelude::*;

verus! {

/// The X protocol's `None` atom.
pub const ATOM_NONE: u32 = 0;

/// How many times the owner takes the selection back within the window
/// after its own set.
pub const MAX_RETAKE_ATTEMPTS: u32 = 8;

/// The most text a requestor reads before giving up, in bytes.
pub const MAX_SELECTION_BYTES: usize = 16777216;

/// The atoms the clipboard code uses, as one connection interned them.
#[derive(Debug, Clone, Copy, PartialEq, Eq, Structural)]
pub struct SelectionAtoms {
    pub clipboard: u32,
    pub utf8_string: u32,
    pub string: u32,
    pub text_plain: u32,
    pub text_plain_charset: u32,
    pub text: u32,
    pub targets: u32,
    pub timestamp: u32,
    pub multiple: u32,
    pub integer: u32,
    pub atom: u32,
    pub property: u32,
    pub incr: u32,
}

impl SelectionAtoms {
    pub open spec fn spec_text_targets(self) -> Seq<u32> {
        seq![self.utf8_string, self.text_plain, self.text_plain_charset, self.string, self.text]
    }

    /// The targets under which the owner hands out text, most specific first.
    pub fn text_targets(&self) -> (r: Vec<u32>)
        ensures
            r@ == self.spec_text_targets(),
    {
        let mut v: Vec<u32> = Vec::new();
        v.push(self.utf8_string);
        v.push(self.text_plain);
        v.push(self.text_plain_charset);
        v.push(self.string);
        v.push(self.text);
        assert(v@ =~= self.spec_text_targets());
        v
    }

    /// The answer to a `TARGETS` request: the text targets, `TARGETS`,
    /// `TIMESTAMP` and `MULTIPLE`.
    pub open spec fn spec_offered(self) -> Seq<u32> {
        self.spec_text_targets() + seq![self.targets, self.timestamp, self.multiple]
    }
}

/// What answering a conversion request writes into the requestor's property.
pub enum SelectionData {
    /// 32-bit items of type `kind`: the offered targets, or the request's time.
    Items { kind: u32, items: Vec<u32> },
    /// The text, as 8-bit data of type `kind`.
    Text { kind: u32 },
    /// Nothing: the target is not offered.
    Refused,
}

/// The owner's whole answer to one `SelectionRequest`.
pub struct SelectionAnswer {
    /// The property the data goes to: the requested one, or the target
    /// itself when the requestor passed `None` (as ICCCM allows).
    pub property: u32,
    pub data: SelectionData,
    /// Whether the requested property is deleted because nothing was delivered.
    pub delete_property: bool,
    /// The property reported in the `SelectionNotify` event: `None` when
    /// nothing was delivered.
    pub notify_property: u32,
}

/// The data that answers `target`, by kind: items, text, or a refusal.
pub open spec fn answer_kind(a: SelectionAtoms, target: u32) -> int {
    if target == a.targets || target == a.timestamp {
        0
    } else if target == a.utf8_string || target == a.text_plain || target == a.text_plain_charset || target == a.string
        || target == a.text {
        1
    } else {
        2
    }
}

/// `ans` is the owner's answer to a request for `target` into `property` at `time`.
pub open spec fn answers(a: SelectionAtoms, target: u32, property: u32, time: u32, ans: SelectionAnswer) -> bool {
    let prop = if property != ATOM_NONE {
        property
    } else {
        target
    };
    let delivered = prop != ATOM_NONE && answer_kind(a, target) != 2;
    &&& ans.property == prop
    &&& ans.delete_property == !delivered
    &&& ans.notify_property == (if delivered {
        prop
    } else {
        ATOM_NONE
    })
    &&& if target == a.targets {
        ans.data matches SelectionData::Items { kind, items } && kind == a.atom && items@ == a.spec_offered()
    } else if target == a.timestamp {
        ans.data matches SelectionData::Items { kind, items } && kind == a.integer && items@ == seq![time]
    } else if target == a.utf8_string || target == a.text_plain || target == a.text_plain_charset {
        ans.data matches SelectionData::Text { kind } && kind == a.utf8_string
    } else if target == a.string || target == a.text {
        ans.data matches SelectionData::Text { kind } && kind == a.string
    } else {
        ans.data is Refused
    }
}

/// Every text target the owner offers is answered with the text, and the
/// request's own list and time targets with data; `MULTIPLE`, though
/// offered, is refused; a target that is not offered is refused. (The atoms
/// of different names differ, as the X server interns them.)
pub proof fn lemma_offered_targets_answered(a: SelectionAtoms, target: u32)
    requires
        a.spec_offered().no_duplicates(),
    ensures
        a.spec_text_targets().contains(target) ==> answer_kind(a, target) == 1,
        target == a.targets || target == a.timestamp ==> answer_kind(a, target) == 0,
        answer_kind(a, a.multiple) == 2,
        !a.spec_offered().contains(target) ==> answer_kind(a, target) == 2,
{
    let o = a.spec_offered();
    assert(o[0] == a.utf8_string && o[1] == a.text_plain && o[2] == a.text_plain_charset && o[3] == a.string
        && o[4] == a.text && o[5] == a.targets && o[6] == a.timestamp && o[7] == a.multiple);
    if a.spec_text_targets().contains(target) {
        let k = choose|k: int| 0 <= k < a.spec_text_targets().len() && a.spec_text_targets()[k] == target;
        assert(o[k] == target);
        assert(o[5] != o[k] && o[6] != o[k]);
    }
    assert(o[7] != o[5] && o[7] != o[6] && o[7] != o[0] && o[7] != o[1] && o[7] != o[2] && o[7] != o[3] && o[7] != o[4]);
    if !o.contains(target) {
        assert(o[0] != target && o[1] != target && o[2] != target && o[3] != target && o[4] != target && o[5] != target
            && o[6] != target);
    }
}

/// `words_for(n)` 32-bit units hold `n` bytes with less than one unit to spare.
pub proof fn lemma_words_for(n: nat)
    ensures
        n <= 4 * words_for(n as int) < n + 4,
{
}

/// How the owner answers a request to convert the selection to `target`
/// into `property` at `time`: the list of offered targets for `TARGETS`,
/// the request's time for `TIMESTAMP`, the text as `UTF8_STRING` for the
/// UTF-8 text targets and as `STRING` for `STRING` and `TEXT`, and a refusal
/// for anything else (`MULTIPLE` included).
pub fn answer_selection_request(a: &SelectionAtoms, target: u32, property: u32, time: u32) -> (ans: SelectionAnswer)
    ensures
        answers(*a, target, property, time, ans),
{
    let prop = if property != ATOM_NONE {
        property
    } else {
        target
    };
    let mut delivered = prop != ATOM_NONE;
    let data = if target == a.targets {
        let mut items = a.text_targets();
        items.push(a.targets);
        items.push(a.timestamp);
        items.push(a.multiple);
        assert(items@ =~= a.spec_offered());
        SelectionData::Items { kind: a.atom, items }
    } else if target == a.timestamp {
        let mut items: Vec<u32> = Vec::new();
        items.push(time);
        assert(items@ =~= seq![time]);
        SelectionData::Items { kind: a.integer, items }
    } else if target == a.utf8_string || target == a.text_plain || target == a.text_plain_charset {
        SelectionData::Text { kind: a.utf8_string }
    } else if target == a.string || target == a.text {
        SelectionData::Text { kind: a.string }
    } else {
        delivered = false;
        SelectionData::Refused
    };
    SelectionAnswer {
        property: prop,
        data,
        delete_property: !delivered,
        notify_property: if delivered {
            prop
        } else {
            ATOM_NONE
        },
    }
}

/// Whether the owner takes the selection back after another client took
/// it: only while it is the newest setter, within the window after its own
/// set, and fewer than `MAX_RETAKE_ATTEMPTS` times so far.
pub fn retake_selection(superseded: bool, window_passed: bool, retakes: u32) -> (r: bool)
    ensures
        r == (!superseded && !window_passed && retakes < MAX_RETAKE_ATTEMPTS),
{
    !(superseded || window_passed || retakes >= MAX_RETAKE_ATTEMPTS)
}

/// The target a requestor asks for: `STRING` for old owners that only
/// offer Latin-1, else `UTF8_STRING`.
pub fn request_target(a: &SelectionAtoms, prefer_string: bool) -> (r: u32)
    ensures
        r == (if prefer_string {
            a.string
        } else {
            a.utf8_string
        }),
{
    if prefer_string {
        a.string
    } else {
        a.utf8_string
    }
}

/// What reading one chunk of the converted property leads to.
#[derive(Debug, Clone, Copy, PartialEq, Eq, Structural)]
pub enum ChunkStep {
    /// Read the next chunk from the new offset.
    More,
    /// All the data is in.
    Done,
    /// Give up: the owner streams by `INCR`, or the data grew too large.
    Fail,
}

/// `ceil(n / 4)`: format-8 data is padded to 32-bit units.
pub open spec fn words_for(n: int) -> int {
    (n + 3) / 4
}

/// Takes one `GetProperty` reply (type `kind`, the bytes `value`, and how
/// many bytes remain after them) into the data read so far and the offset,
/// in 32-bit units, of the next read.
pub fn take_property_chunk(
    data: &mut Vec<u8>,
    offset: &mut u32,
    kind: u32,
    value: &Vec<u8>,
    bytes_after: u32,
    incr: u32,
) -> (step: ChunkStep)
    requires
        kind != incr && bytes_after != 0 ==> *old(offset) + words_for(value@.len() as int) <= u32::MAX,
        old(data)@.len() + value@.len() <= usize::MAX,
    ensures
        kind == incr ==> step == ChunkStep::Fail && final(data)@ == old(data)@ && *final(offset) == *old(offset),
        kind != incr ==> {
            &&& final(data)@ == old(data)@ + value@
            &&& bytes_after == 0 ==> step == ChunkStep::Done && *final(offset) == *old(offset)
            &&& bytes_after != 0 ==> *final(offset) == *old(offset) + words_for(value@.len() as int)
                && step == (if final(data)@.len() > MAX_SELECTION_BYTES {
                ChunkStep::Fail
            } else {
                ChunkStep::More
            })
        },
{
    if kind == incr {
        return ChunkStep::Fail;
    }
    let ghost before = data@;
    let mut i: usize = 0;
    while i < value.len()
        invariant
            i <= value@.len(),
            data@ == before + value@.take(i as int),
            before.len() + value@.len() <= usize::MAX,
        decreases value@.len() - i,
    {
        data.push(value[i]);
        assert(value@.take(i + 1) =~= value@.take(i as int).push(value@[i as int]));
        i = i + 1;
    }
    assert(value@.take(value@.len() as int) =~= value@);
    if bytes_after == 0 {
        return ChunkStep::Done;
    }
    let n = value.len();
    let words = n / 4 + if n % 4 == 0 {
        0
    } else {
        1
    };
    assert(words == words_for(n as int));
    *offset = *offset + words as u32;
    if data.len() > MAX_SELECTION_BYTES {
        ChunkStep::Fail
    } else {
        ChunkStep::More
    }
}

} // verus!
