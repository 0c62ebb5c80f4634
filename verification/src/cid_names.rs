use vstd::prelude::*;

verus! {

/// The human-readable name of a HID++ Control ID (CID); "Unknown" for the
/// CIDs not listed.
pub open spec fn cid_label(cid: u16) -> Seq<char> {
    if cid == 0x0050 {
        "Left Button"@
    } else if cid == 0x0051 {
        "Right Button"@
    } else if cid == 0x0052 {
        "Middle Button"@
    } else if cid == 0x0053 {
        "Back Button"@
    } else if cid == 0x0054 {
        "Back"@
    } else if cid == 0x0056 {
        "Forward Button"@
    } else if cid == 0x0057 {
        "Forward"@
    } else if cid == 0x005B {
        "Left Scroll"@
    } else if cid == 0x005D {
        "Right Scroll"@
    } else if cid == 0x006F {
        "Scroll Down"@
    } else if cid == 0x0070 {
        "Scroll Up"@
    } else if cid == 0x00C3 {
        "Gesture Button"@
    } else if cid == 0x00C4 {
        "Smart Shift"@
    } else if cid == 0x00D0 {
        "MultiPlatform Gesture"@
    } else if cid == 0x00D7 {
        "Virtual Gesture Button"@
    } else if cid == 0x00DB {
        "Back (Short Press)"@
    } else if cid == 0x00DC {
        "Back (Long Press)"@
    } else if cid == 0x00DD {
        "Forward (Short Press)"@
    } else if cid == 0x00DE {
        "Forward (Long Press)"@
    } else if cid == 0x00E2 {
        "Backlight Down"@
    } else if cid == 0x00E3 {
        "Backlight Up"@
    } else if cid == 0x00EA {
        "Context Menu"@
    } else if cid == 0x00FD {
        "DPI Change"@
    } else {
        "Unknown"@
    }
}

/// The CIDs that have a name of their own.
pub open spec fn named_cid(cid: u16) -> bool {
    cid_label(cid) != "Unknown"@
}

/// The named CID whose name has this length, first and last char.
pub open spec fn cid_by_name_key(len: nat, first: char, last: char) -> u16 {
    if len == 11 && first == 'L' && last == 'n' {
        0x0050
    } else if len == 12 && first == 'R' && last == 'n' {
        0x0051
    } else if len == 13 && first == 'M' && last == 'n' {
        0x0052
    } else if len == 11 && first == 'B' && last == 'n' {
        0x0053
    } else if len == 4 && first == 'B' && last == 'k' {
        0x0054
    } else if len == 14 && first == 'F' && last == 'n' {
        0x0056
    } else if len == 7 && first == 'F' && last == 'd' {
        0x0057
    } else if len == 11 && first == 'L' && last == 'l' {
        0x005B
    } else if len == 12 && first == 'R' && last == 'l' {
        0x005D
    } else if len == 11 && first == 'S' && last == 'n' {
        0x006F
    } else if len == 9 && first == 'S' && last == 'p' {
        0x0070
    } else if len == 14 && first == 'G' && last == 'n' {
        0x00C3
    } else if len == 11 && first == 'S' && last == 't' {
        0x00C4
    } else if len == 21 && first == 'M' && last == 'e' {
        0x00D0
    } else if len == 22 && first == 'V' && last == 'n' {
        0x00D7
    } else if len == 18 && first == 'B' && last == ')' {
        0x00DB
    } else if len == 17 && first == 'B' && last == ')' {
        0x00DC
    } else if len == 21 && first == 'F' && last == ')' {
        0x00DD
    } else if len == 20 && first == 'F' && last == ')' {
        0x00DE
    } else if len == 14 && first == 'B' && last == 'n' {
        0x00E2
    } else if len == 12 && first == 'B' && last == 'p' {
        0x00E3
    } else if len == 12 && first == 'C' && last == 'u' {
        0x00EA
    } else if len == 10 && first == 'D' && last == 'e' {
        0x00FD
    } else {
        0xFFFF
    }
}

/// A named CID is found back from its name's length, first and last char.
proof fn lemma_cid_label_key(cid: u16)
    requires
        named_cid(cid),
    ensures
        cid_by_name_key(cid_label(cid).len(), cid_label(cid)[0], cid_label(cid).last()) == cid,
{
    reveal_strlit("Left Button");
    reveal_strlit("Right Button");
    reveal_strlit("Middle Button");
    reveal_strlit("Back Button");
    reveal_strlit("Back");
    reveal_strlit("Forward Button");
    reveal_strlit("Forward");
    reveal_strlit("Left Scroll");
    reveal_strlit("Right Scroll");
    reveal_strlit("Scroll Down");
    reveal_strlit("Scroll Up");
    reveal_strlit("Gesture Button");
    reveal_strlit("Smart Shift");
    reveal_strlit("MultiPlatform Gesture");
    reveal_strlit("Virtual Gesture Button");
    reveal_strlit("Back (Short Press)");
    reveal_strlit("Back (Long Press)");
    reveal_strlit("Forward (Short Press)");
    reveal_strlit("Forward (Long Press)");
    reveal_strlit("Backlight Down");
    reveal_strlit("Backlight Up");
    reveal_strlit("Context Menu");
    reveal_strlit("DPI Change");
    reveal_strlit("Unknown");
    reveal_strlit("Unknown");
}

/// Name law: the named CIDs have pairwise distinct names.
pub proof fn lemma_cid_labels_distinct(a: u16, b: u16)
    requires
        named_cid(a),
        named_cid(b),
        a != b,
    ensures
        cid_label(a) != cid_label(b),
{
    lemma_cid_label_key(a);
    lemma_cid_label_key(b);
}

/// Maps common HID++ Control IDs (CIDs) to human-readable names.
pub fn cid_name(cid: u16) -> (name: &'static str)
    ensures
        name@ == cid_label(cid),
{
    match cid {
        0x0050 => "Left Button",
        0x0051 => "Right Button",
        0x0052 => "Middle Button",
        0x0053 => "Back Button",
        0x0054 => "Back",
        0x0056 => "Forward Button",
        0x0057 => "Forward",
        0x005B => "Left Scroll",
        0x005D => "Right Scroll",
        0x006F => "Scroll Down",
        0x0070 => "Scroll Up",
        0x00C3 => "Gesture Button",
        0x00C4 => "Smart Shift",
        0x00D0 => "MultiPlatform Gesture",
        0x00D7 => "Virtual Gesture Button",
        0x00DB => "Back (Short Press)",
        0x00DC => "Back (Long Press)",
        0x00DD => "Forward (Short Press)",
        0x00DE => "Forward (Long Press)",
        0x00E2 => "Backlight Down",
        0x00E3 => "Backlight Up",
        0x00EA => "Context Menu",
        0x00FD => "DPI Change",
        _ => "Unknown",
    }
}

} // verus!
