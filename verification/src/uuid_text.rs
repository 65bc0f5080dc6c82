//! UUIDs as text.

use vstd::prelude::*;
use crate::text;

verus! {

/// The lower-case form of an ASCII letter; any other character itself.
pub open spec fn lower(c: char) -> char {
    if c == 'A' { 'a' }
    else if c == 'B' { 'b' }
    else if c == 'C' { 'c' }
    else if c == 'D' { 'd' }
    else if c == 'E' { 'e' }
    else if c == 'F' { 'f' }
    else { c }
}

pub open spec fn lowered(s: Seq<char>) -> Seq<char> {
    Seq::new(s.len(), |i: int| lower(s[i]))
}

/// Whether a UUID in its hyphenated form has a hyphen at index `i`.
pub open spec fn is_hyphen_index(i: int) -> bool {
    i == 8 || i == 13 || i == 18 || i == 23
}

/// Whether a text is the hyphenated form of a UUID: 36 characters, hyphens between groups of 8, 4,
/// 4, 4 and 12 hexadecimal digits of either case.
pub open spec fn is_hyphenated(s: Seq<char>) -> bool {
    &&& s.len() == 36
    &&& forall|i: int|
        0 <= i < 36 ==> if is_hyphen_index(i) {
            #[trigger] s[i] == '-'
        } else {
            text::is_ascii_hex(s[i])
        }
}

/// Whether a text is the hyphenated form of a UUID in lower case.
pub open spec fn is_canonical(s: Seq<char>) -> bool {
    is_hyphenated(s) && lowered(s) == s
}

/// 32 hexadecimal digits with hyphens between the groups.
pub open spec fn hyphenated(digits: Seq<char>) -> Seq<char> {
    digits.subrange(0, 8) + seq!['-'] + digits.subrange(8, 12) + seq!['-'] + digits.subrange(12, 16)
        + seq!['-'] + digits.subrange(16, 20) + seq!['-'] + digits.subrange(20, 32)
}

/// Whether a text is `urn:uuid:` in any case.
pub open spec fn is_urn_prefix(s: Seq<char>) -> bool {
    &&& s.len() == 9
    &&& (s[0] == 'u' || s[0] == 'U') && (s[1] == 'r' || s[1] == 'R') && (s[2] == 'n' || s[2] == 'N')
    &&& s[3] == ':'
    &&& (s[4] == 'u' || s[4] == 'U') && (s[5] == 'u' || s[5] == 'U') && (s[6] == 'i' || s[6] == 'I')
    &&& (s[7] == 'd' || s[7] == 'D') && s[8] == ':'
}

/// The hyphenated form that a text of one of the four accepted shapes holds: plain digits, the
/// hyphenated form, that form in braces, or behind `urn:uuid:`.
pub open spec fn accepted(s: Seq<char>) -> Option<Seq<char>> {
    if s.len() == 32 && forall|i: int| 0 <= i < 32 ==> text::is_ascii_hex(#[trigger] s[i]) {
        Some(hyphenated(s))
    } else if is_hyphenated(s) {
        Some(s)
    } else if s.len() == 38 && s[0] == '{' && s[37] == '}' && is_hyphenated(s.subrange(1, 37)) {
        Some(s.subrange(1, 37))
    } else if s.len() == 45 && is_urn_prefix(s.subrange(0, 9)) && is_hyphenated(
        s.subrange(9, 45),
    ) {
        Some(s.subrange(9, 45))
    } else {
        None
    }
}

/// Calls `uuid::Uuid::parse_str` and writes the UUID back in its hyphenated form. Claimed are the
/// texts that are accepted, and that the form written is that of the text read, in lower case.
#[verifier::external_body]
pub(crate) fn reformatted(raw: &str) -> (r: Option<String>)
    ensures
        text::opt_view(r) == (match accepted(raw@) {
            Some(s) => Some(lowered(s)),
            None => None,
        }),
{
    match uuid::Uuid::parse_str(raw) {
        Ok(u) => Some(u.hyphenated().to_string()),
        Err(_) => None,
    }
}

/// Calls `uuid::Uuid::new_v4`. Claimed is the form of what comes, with the version digit in its
/// place; which UUID comes is left to chance.
#[verifier::external_body]
pub(crate) fn random_uuid() -> (r: String)
    ensures
        is_canonical(r@),
        r@[14] == '4',
{
    uuid::Uuid::new_v4().to_string()
}

/// What is wrong with a text that should be a canonical UUID.
#[derive(Debug, Clone, Copy, PartialEq, Eq, Structural)]
pub enum UuidFault {
    /// It is no UUID in any accepted form.
    NotAUuid,
    /// It is a UUID, but not in lower-case hyphenated form.
    NotCanonical,
}

/// What is wrong with the text; `None` where it is a canonical UUID.
pub open spec fn uuid_fault(s: Seq<char>) -> Option<UuidFault> {
    if accepted(s) is None {
        Some(UuidFault::NotAUuid)
    } else if !is_canonical(s) {
        Some(UuidFault::NotCanonical)
    } else {
        None
    }
}

proof fn lemma_lowered_hyphenated(s: Seq<char>)
    requires
        is_hyphenated(s),
    ensures
        is_canonical(lowered(s)),
{
    let t = lowered(s);
    assert forall|i: int| 0 <= i < 36 implies if is_hyphen_index(i) {
        #[trigger] t[i] == '-'
    } else {
        text::is_ascii_hex(t[i])
    } by {
        assert(t[i] == lower(s[i]));
    }
    assert(lowered(t) =~= t);
}

proof fn lemma_accepted_hyphenated(s: Seq<char>)
    ensures
        accepted(s) matches Some(t) ==> is_hyphenated(t),
        is_hyphenated(s) ==> accepted(s) == Some(s),
{
    if s.len() == 32 && forall|i: int| 0 <= i < 32 ==> text::is_ascii_hex(#[trigger] s[i]) {
        let t = hyphenated(s);
        assert(t.len() == 36);
        assert forall|i: int| 0 <= i < 36 implies if is_hyphen_index(i) {
            #[trigger] t[i] == '-'
        } else {
            text::is_ascii_hex(t[i])
        } by {
            if i < 8 {
                assert(t[i] == s[i]);
            } else if 8 < i < 13 {
                assert(t[i] == s[i - 1]);
            } else if 13 < i < 18 {
                assert(t[i] == s[i - 2]);
            } else if 18 < i < 23 {
                assert(t[i] == s[i - 3]);
            } else if 23 < i {
                assert(t[i] == s[i - 4]);
            }
        }
    }
}

/// Says what is wrong with a text that should be a canonical UUID.
pub fn fault_of(raw: &str) -> (r: Option<UuidFault>)
    ensures
        r == uuid_fault(raw@),
{
    proof {
        lemma_accepted_hyphenated(raw@);
        if accepted(raw@) is Some {
            lemma_lowered_hyphenated(accepted(raw@)->0);
        }
    }
    match reformatted(raw) {
        None => Some(UuidFault::NotAUuid),
        Some(t) => if text::same(t.as_str(), raw) {
            None
        } else {
            Some(UuidFault::NotCanonical)
        },
    }
}

/// Whether a text is the hyphenated form of a UUID, in either case.
pub fn is_uuid(s: &str) -> (r: bool)
    ensures
        r == is_hyphenated(s@),
{
    let v = text::chars_of(s);
    if v.len() != 36 {
        return false;
    }
    let mut i: usize = 0;
    while i < 36
        invariant
            i <= 36,
            v@.len() == 36,
            v@ == s@,
            forall|k: int|
                0 <= k < i ==> if is_hyphen_index(k) {
                    #[trigger] s@[k] == '-'
                } else {
                    text::is_ascii_hex(s@[k])
                },
        decreases 36 - i,
    {
        let ok = if i == 8 || i == 13 || i == 18 || i == 23 {
            v[i] == '-'
        } else {
            text::is_hex(v[i])
        };
        if !ok {
            assert(!is_hyphenated(s@)) by {
                let c = s@[i as int];
            }
            return false;
        }
        i = i + 1;
    }
    true
}

// ---------------------------------------------------------------------------
// What telling UUIDs promises
// ---------------------------------------------------------------------------

/// Nothing is wrong with a text exactly where it has thirty-six characters, hyphens behind groups of eight, four, four and
/// four, and digits or the letters from `a` to `f` everywhere else.
pub proof fn canonical_forms_are_lower_case_groups(s: Seq<char>)
    ensures
        uuid_fault(s) is None <==> s.len() == 36 && s[8] == '-' && s[13] == '-' && s[18] == '-'
            && s[23] == '-' && (forall|i: int|
            0 <= i < 36 && i != 8 && i != 13 && i != 18 && i != 23 ==> ('0' <= (#[trigger] s[i])
                && s[i] <= '9') || ('a' <= s[i] && s[i] <= 'f')),
{
    lemma_accepted_hyphenated(s);
    if uuid_fault(s) is None {
        assert(is_hyphenated(s) && lowered(s) == s);
        assert(is_hyphen_index(8) && is_hyphen_index(13) && is_hyphen_index(18) && is_hyphen_index(23));
        assert(s[8] == '-' && s[13] == '-' && s[18] == '-' && s[23] == '-');
        assert forall|i: int| 0 <= i < 36 && i != 8 && i != 13 && i != 18 && i != 23 implies ('0' <= (
        #[trigger] s[i]) && s[i] <= '9') || ('a' <= s[i] && s[i] <= 'f') by {
            assert(text::is_ascii_hex(s[i]));
            assert(lowered(s)[i] == lower(s[i]));
        }
    }
    if s.len() == 36 && s[8] == '-' && s[13] == '-' && s[18] == '-' && s[23] == '-' && (forall|i: int|
        0 <= i < 36 && i != 8 && i != 13 && i != 18 && i != 23 ==> ('0' <= (#[trigger] s[i]) && s[i]
            <= '9') || ('a' <= s[i] && s[i] <= 'f')) {
        assert(is_hyphenated(s));
        assert(lowered(s) =~= s) by {
            assert forall|i: int| 0 <= i < 36 implies lower(#[trigger] s[i]) == s[i] by {
                if i == 8 || i == 13 || i == 18 || i == 23 {
                    assert(s[i] == '-');
                }
            }
        }
    }
}

/// A UUID in capitals, in braces, behind `urn:uuid:` or without its hyphens is one, but not in canonical form; a text of
/// another length is none.
pub proof fn other_forms_are_not_canonical(s: Seq<char>, t: Seq<char>)
    requires
        uuid_fault(s) is None,
    ensures
        uuid_fault(seq!['{'] + s + seq!['}']) == Some(UuidFault::NotCanonical),
        uuid_fault("urn:uuid:"@ + s) == Some(UuidFault::NotCanonical),
        uuid_fault(
            s.subrange(0, 8) + s.subrange(9, 13) + s.subrange(14, 18) + s.subrange(19, 23)
                + s.subrange(24, 36),
        ) == Some(UuidFault::NotCanonical),
        t != s && lowered(t) == s ==> uuid_fault(t) == Some(UuidFault::NotCanonical),
        t.len() != 32 && t.len() != 36 && t.len() != 38 && t.len() != 45 ==> uuid_fault(t) == Some(
            UuidFault::NotAUuid,
        ),
{
    reveal_strlit("urn:uuid:");
    lemma_accepted_hyphenated(s);
    canonical_forms_are_lower_case_groups(s);
    let braced = seq!['{'] + s + seq!['}'];
    assert(braced.subrange(1, 37) =~= s);
    let urn = "urn:uuid:"@ + s;
    assert(urn.subrange(9, 45) =~= s);
    assert(urn.subrange(0, 9) =~= "urn:uuid:"@);
    let plain = s.subrange(0, 8) + s.subrange(9, 13) + s.subrange(14, 18) + s.subrange(19, 23)
        + s.subrange(24, 36);
    assert forall|i: int| 0 <= i < 32 implies text::is_ascii_hex(#[trigger] plain[i]) by {
        if i < 8 {
            assert(plain[i] == s[i]);
        } else if i < 12 {
            assert(plain[i] == s[i + 1]);
        } else if i < 16 {
            assert(plain[i] == s[i + 2]);
        } else if i < 20 {
            assert(plain[i] == s[i + 3]);
        } else {
            assert(plain[i] == s[i + 4]);
        }
    }
    if t != s && lowered(t) == s {
        assert(t.len() == 36);
        assert(is_hyphenated(t)) by {
            assert forall|i: int| 0 <= i < 36 implies if is_hyphen_index(i) {
                #[trigger] t[i] == '-'
            } else {
                text::is_ascii_hex(t[i])
            } by {
                assert(lowered(t)[i] == lower(t[i]));
                assert(lower(t[i]) == s[i]);
                if is_hyphen_index(i) {
                    assert(s[i] == '-');
                } else {
                    assert(text::is_ascii_hex(s[i]));
                }
            }
        }
        lemma_accepted_hyphenated(t);
    }
}

} // verus!
