//! Reads a raw prompt into an action: a leading command word followed by a
//! message files the message; a bare lower-case word reads one back.

use vstd::prelude::*;
use vstd::string::StrSliceExecFns;

verus! {

#[derive(Debug)]
pub enum Action {
    Create(String),
    Read(String),
}

#[derive(Debug)]
pub enum PromptParseError {
    MalformedAction,
    MessageInvalid(String),
}

pub type PromptParseResult = Result<Action, PromptParseError>;

/// The command word that asks for a message to be filed.
pub open spec fn create_word() -> Seq<char> {
    "partyskunk"@
}

/// A message may be at most this many bytes once encoded.
pub const MESSAGE_CHARACTER_LIMIT: usize = 140;

/// The reason handed back when a create prompt carries no usable message.
pub open spec fn message_invalid_reason() -> Seq<char> {
    "Message must not be empty and must be less than 140 characters."@
}

/// The Unicode white-space characters.
pub open spec fn is_space(c: char) -> bool {
    c == ' ' || c == '\t' || c == '\n' || c == '\r' || c == '\u{b}' || c == '\u{c}' || c
        == '\u{85}' || c == '\u{a0}' || c == '\u{1680}' || c == '\u{2000}' || c == '\u{2001}' || c
        == '\u{2002}' || c == '\u{2003}' || c == '\u{2004}' || c == '\u{2005}' || c == '\u{2006}'
        || c == '\u{2007}' || c == '\u{2008}' || c == '\u{2009}' || c == '\u{200a}' || c
        == '\u{2028}' || c == '\u{2029}' || c == '\u{202f}' || c == '\u{205f}' || c == '\u{3000}'
}

fn is_space_exec(c: char) -> (r: bool)
    ensures
        r == is_space(c),
{
    c == ' ' || c == '\t' || c == '\n' || c == '\r' || c == '\u{b}' || c == '\u{c}' || c
        == '\u{85}' || c == '\u{a0}' || c == '\u{1680}' || c == '\u{2000}' || c == '\u{2001}' || c
        == '\u{2002}' || c == '\u{2003}' || c == '\u{2004}' || c == '\u{2005}' || c == '\u{2006}'
        || c == '\u{2007}' || c == '\u{2008}' || c == '\u{2009}' || c == '\u{200a}' || c
        == '\u{2028}' || c == '\u{2029}' || c == '\u{202f}' || c == '\u{205f}' || c == '\u{3000}'
}

pub open spec fn trim_front(s: Seq<char>) -> Seq<char>
    decreases s.len(),
{
    if s.len() > 0 && is_space(s[0]) {
        trim_front(s.drop_first())
    } else {
        s
    }
}

pub open spec fn trim_back(s: Seq<char>) -> Seq<char>
    decreases s.len(),
{
    if s.len() > 0 && is_space(s.last()) {
        trim_back(s.drop_last())
    } else {
        s
    }
}

/// The prompt with leading and trailing white space dropped.
pub open spec fn trimmed(s: Seq<char>) -> Seq<char> {
    trim_back(trim_front(s))
}

/// How many characters the leading run of non-space characters has.
pub open spec fn token_len(s: Seq<char>) -> int
    decreases s.len(),
{
    if s.len() > 0 && !is_space(s[0]) {
        1 + token_len(s.drop_first())
    } else {
        0
    }
}

/// How many characters the leading run of space characters has.
pub open spec fn space_run(s: Seq<char>) -> int
    decreases s.len(),
{
    if s.len() > 0 && is_space(s[0]) {
        1 + space_run(s.drop_first())
    } else {
        0
    }
}

/// The first word of a trimmed prompt.
pub open spec fn first_token(t: Seq<char>) -> Seq<char> {
    t.subrange(0, token_len(t))
}

/// Whether anything follows the first word.
pub open spec fn has_rest(t: Seq<char>) -> bool {
    token_len(t) < t.len()
}

/// What follows the first word, the gap of white space dropped.
pub open spec fn rest_after_token(t: Seq<char>) -> Seq<char> {
    let q = token_len(t) + space_run(t.skip(token_len(t)));
    t.subrange(q, t.len() as int)
}

/// What `str::to_lowercase` returns for a given sequence of characters.
pub uninterp spec fn lower_of(s: Seq<char>) -> Seq<char>;

/// Relies on `str::to_lowercase`: the Unicode lowercase of the text, a
/// function of the characters alone.
#[verifier::external_body]
fn lowercase(s: &str) -> (r: String)
    ensures
        r@ == lower_of(s@),
{
    s.to_lowercase()
}

pub open spec fn is_lower_alpha(c: char) -> bool {
    97 <= (c as int) && (c as int) <= 122
}

pub open spec fn all_lower_alpha(s: Seq<char>) -> bool {
    forall|i: int| 0 <= i < s.len() ==> is_lower_alpha(#[trigger] s[i])
}

/// A message fits when its encoding is within the limit.
pub open spec fn message_fits(m: Seq<char>) -> bool {
    vstd::utf8::encode_utf8(m).len() <= MESSAGE_CHARACTER_LIMIT
}

/// What a prompt asks for, read off its text: the first word of the trimmed
/// prompt is lowercased; the command word files what follows, any other
/// bare lower-case word reads that word back.
pub enum PromptShape {
    CreateMsg(Seq<char>),
    ReadCode(Seq<char>),
    Malformed,
    MessageBad,
}

pub open spec fn prompt_shape(s: Seq<char>) -> PromptShape {
    let t = trimmed(s);
    let w = lower_of(first_token(t));
    if w == create_word() {
        if has_rest(t) && message_fits(rest_after_token(t)) {
            PromptShape::CreateMsg(rest_after_token(t))
        } else {
            PromptShape::MessageBad
        }
    } else if w.len() > 0 && all_lower_alpha(w) {
        PromptShape::ReadCode(w)
    } else {
        PromptShape::Malformed
    }
}

proof fn lemma_trim_front_subrange(s: Seq<char>, lo: int)
    requires
        0 <= lo <= s.len(),
        forall|j: int| 0 <= j < lo ==> is_space(#[trigger] s[j]),
        lo < s.len() ==> !is_space(s[lo]),
    ensures
        trim_front(s) == s.subrange(lo, s.len() as int),
    decreases lo,
{
    if lo == 0 {
        assert(s.subrange(0, s.len() as int) =~= s);
    } else {
        let d = s.drop_first();
        lemma_trim_front_subrange(d, lo - 1);
        assert(d.subrange(lo - 1, d.len() as int) =~= s.subrange(lo, s.len() as int));
    }
}

proof fn lemma_trim_back_subrange(s: Seq<char>, hi: int)
    requires
        0 <= hi <= s.len(),
        forall|j: int| hi <= j < s.len() ==> is_space(#[trigger] s[j]),
        hi > 0 ==> !is_space(s[hi - 1]),
    ensures
        trim_back(s) == s.subrange(0, hi),
    decreases s.len(),
{
    if hi == s.len() {
        assert(s.subrange(0, hi) =~= s);
    } else {
        let d = s.drop_last();
        lemma_trim_back_subrange(d, hi);
        assert(d.subrange(0, hi) =~= s.subrange(0, hi));
    }
}

proof fn lemma_token_len(s: Seq<char>, p: int)
    requires
        0 <= p <= s.len(),
        forall|j: int| 0 <= j < p ==> !is_space(#[trigger] s[j]),
        p < s.len() ==> is_space(s[p]),
    ensures
        token_len(s) == p,
    decreases p,
{
    if p == 0 {
    } else {
        let d = s.drop_first();
        lemma_token_len(d, p - 1);
    }
}

proof fn lemma_space_run(s: Seq<char>, g: int)
    requires
        0 <= g <= s.len(),
        forall|j: int| 0 <= j < g ==> is_space(#[trigger] s[j]),
        g < s.len() ==> !is_space(s[g]),
    ensures
        space_run(s) == g,
    decreases g,
{
    if g == 0 {
    } else {
        let d = s.drop_first();
        lemma_space_run(d, g - 1);
    }
}

/// Character-for-character text equality.
fn str_eq(a: &str, b: &str) -> (r: bool)
    ensures
        r == (a@ == b@),
{
    let la = a.unicode_len();
    let lb = b.unicode_len();
    if la != lb {
        return false;
    }
    let mut i: usize = 0;
    while i < la
        invariant
            la == a@.len(),
            la == b@.len(),
            i <= la,
            forall|j: int| 0 <= j < i ==> a@[j] == b@[j],
        decreases la - i,
    {
        if a.get_char(i) != b.get_char(i) {
            return false;
        }
        i += 1;
    }
    proof {
        assert(a@ =~= b@);
    }
    true
}

fn trim_str<'a>(s: &'a str) -> (r: &'a str)
    ensures
        r@ == trimmed(s@),
{
    let len = s.unicode_len();
    let mut lo: usize = 0;
    while lo < len && is_space_exec(s.get_char(lo))
        invariant
            len == s@.len(),
            lo <= len,
            forall|j: int| 0 <= j < lo ==> is_space(#[trigger] s@[j]),
        decreases len - lo,
    {
        lo += 1;
    }
    let mut hi: usize = len;
    while hi > lo && is_space_exec(s.get_char(hi - 1))
        invariant
            len == s@.len(),
            lo <= hi <= len,
            forall|j: int| hi <= j < len ==> is_space(#[trigger] s@[j]),
        decreases hi,
    {
        hi -= 1;
    }
    proof {
        lemma_trim_front_subrange(s@, lo as int);
        let f = s@.subrange(lo as int, s@.len() as int);
        assert forall|j: int| hi - lo <= j < f.len() implies is_space(#[trigger] f[j]) by {
            assert(f[j] == s@[lo + j]);
        }
        lemma_trim_back_subrange(f, hi - lo);
        assert(f.subrange(0, hi - lo) =~= s@.subrange(lo as int, hi as int));
    }
    s.substring_char(lo, hi)
}

/// Classifies a prompt: the command word followed by a message within the
/// limit files the message; the command word alone, or with an oversize
/// message, is rejected with the reason; any other bare lower-case word reads
/// that word; everything else is malformed.
pub fn parse(prompt: String) -> (r: PromptParseResult)
    ensures
        match r {
            Ok(action) => match action {
                Action::Create(m) => prompt_shape(prompt@) == PromptShape::CreateMsg(m@),
                Action::Read(c) => prompt_shape(prompt@) == PromptShape::ReadCode(c@),
            },
            Err(e) => match e {
                PromptParseError::MalformedAction => prompt_shape(prompt@)
                    == PromptShape::Malformed,
                PromptParseError::MessageInvalid(reason) => prompt_shape(prompt@)
                    == PromptShape::MessageBad && reason@ == message_invalid_reason(),
            },
        },
{
    let t = trim_str(prompt.as_str());
    let tlen = t.unicode_len();
    let mut p: usize = 0;
    while p < tlen && !is_space_exec(t.get_char(p))
        invariant
            tlen == t@.len(),
            p <= tlen,
            forall|j: int| 0 <= j < p ==> !is_space(#[trigger] t@[j]),
        decreases tlen - p,
    {
        p += 1;
    }
    proof {
        lemma_token_len(t@, p as int);
    }
    let word = t.substring_char(0, p);
    let lw = lowercase(word);
    if str_eq(lw.as_str(), "partyskunk") {
        if p < tlen {
            let mut q: usize = p;
            while q < tlen && is_space_exec(t.get_char(q))
                invariant
                    tlen == t@.len(),
                    p <= q <= tlen,
                    forall|j: int| p <= j < q ==> is_space(#[trigger] t@[j]),
                decreases tlen - q,
            {
                q += 1;
            }
            proof {
                let u = t@.skip(p as int);
                assert forall|j: int| 0 <= j < q - p implies is_space(#[trigger] u[j]) by {
                    assert(u[j] == t@[p + j]);
                }
                if q < tlen {
                    assert(u[q - p] == t@[q as int]);
                }
                lemma_space_run(u, q - p);
            }
            let msg = t.substring_char(q, tlen);
            let encoded = msg.as_bytes();
            proof {
                broadcast use vstd::slice::axiom_spec_len;

            }
            if encoded.len() <= MESSAGE_CHARACTER_LIMIT {
                Ok(Action::Create(msg.to_owned()))
            } else {
                Err(
                    PromptParseError::MessageInvalid(
                        "Message must not be empty and must be less than 140 characters.".to_owned(),
                    ),
                )
            }
        } else {
            Err(
                PromptParseError::MessageInvalid(
                    "Message must not be empty and must be less than 140 characters.".to_owned(),
                ),
            )
        }
    } else {
        let llen = lw.as_str().unicode_len();
        let mut all_alpha = llen > 0;
        let mut i: usize = 0;
        while i < llen
            invariant
                llen == lw@.len(),
                i <= llen,
                all_alpha == (llen > 0 && forall|j: int|
                    0 <= j < i ==> is_lower_alpha(#[trigger] lw@[j])),
            decreases llen - i,
        {
            let c = lw.as_str().get_char(i);
            let u = c as u32;
            if !(97 <= u && u <= 122) {
                all_alpha = false;
            }
            i += 1;
        }
        if all_alpha {
            Ok(Action::Read(lw))
        } else {
            Err(PromptParseError::MalformedAction)
        }
    }
}

} // verus!
