use vstd::prelude::*;
use vstd::string::StrSliceExecFns;

verus! {

/// The class of device a visit came from.
#[derive(PartialEq, Eq, Structural, Debug, Clone, Copy)]
pub enum DeviceType {
    Mobile,
    Desktop,
    Unknown,
}

/// What `str::to_lowercase` makes of a text.
pub uninterp spec fn lowercase_of(s: Seq<char>) -> Seq<char>;

/// Relies on `str::to_lowercase`: the Unicode lowercase mapping, which depends
/// on the text alone.
#[verifier::external_body]
fn to_lowercase(s: &str) -> (r: String)
    ensures
        r@ == lowercase_of(s@),
{
    s.to_lowercase()
}

/// `pat` occurs in `text` starting at position `i`.
pub open spec fn occurs_at(text: Seq<char>, pat: Seq<char>, i: int) -> bool {
    0 <= i && i + pat.len() <= text.len() && text.subrange(i, i + pat.len()) == pat
}

pub open spec fn occurs_in(text: Seq<char>, pat: Seq<char>) -> bool {
    exists|i: int| occurs_at(text, pat, i)
}

/// A lowercased user agent names a mobile device.
pub open spec fn names_mobile(lowered: Seq<char>) -> bool {
    occurs_in(lowered, "mobile"@) || occurs_in(lowered, "android"@) || occurs_in(lowered, "iphone"@)
        || occurs_in(lowered, "ipad"@)
}

/// The class of a user agent; `None` stands for one that is missing or not
/// readable as text.
pub open spec fn device_of(user_agent: Option<Seq<char>>) -> DeviceType {
    match user_agent {
        None => DeviceType::Unknown,
        Some(ua) => if names_mobile(lowercase_of(ua)) {
            DeviceType::Mobile
        } else {
            DeviceType::Desktop
        },
    }
}

pub open spec fn device_label(d: DeviceType) -> Seq<char> {
    match d {
        DeviceType::Mobile => "Mobile"@,
        DeviceType::Desktop => "Desktop"@,
        DeviceType::Unknown => "Unknown"@,
    }
}

pub open spec fn view_of(s: Option<&str>) -> Option<Seq<char>> {
    match s {
        Some(t) => Some(t@),
        None => None,
    }
}

impl DeviceType {
    /// The name under which a visit's device is recorded.
    pub fn label(&self) -> (r: String)
        ensures
            r@ == device_label(*self),
    {
        match self {
            DeviceType::Mobile => "Mobile".to_string(),
            DeviceType::Desktop => "Desktop".to_string(),
            DeviceType::Unknown => "Unknown".to_string(),
        }
    }
}

pub(crate) fn chars_of(s: &str) -> (r: Vec<char>)
    ensures
        r@ == s@,
{
    let n = s.unicode_len();
    let mut out: Vec<char> = Vec::new();
    let mut i: usize = 0;
    while i < n
        invariant
            n == s@.len(),
            i <= n,
            out@ == s@.subrange(0, i as int),
        decreases n - i,
    {
        out.push(s.get_char(i));
        i = i + 1;
    }
    assert(out@ =~= s@);
    out
}

fn matches_at(text: &Vec<char>, pat: &Vec<char>, i: usize) -> (r: bool)
    requires
        i + pat@.len() <= text@.len(),
    ensures
        r == (text@.subrange(i as int, i + pat@.len()) == pat@),
{
    let n = text.len();
    let mut k: usize = 0;
    while k < pat.len()
        invariant
            n == text@.len(),
            i + pat@.len() <= text@.len(),
            k <= pat@.len(),
            text@.subrange(i as int, i + k) == pat@.subrange(0, k as int),
        decreases pat@.len() - k,
    {
        if text[i + k] != pat[k] {
            assert(text@.subrange(i as int, i + pat@.len())[k as int] != pat@[k as int]);
            return false;
        }
        assert(text@.subrange(i as int, i + k + 1) =~= pat@.subrange(0, k + 1));
        k = k + 1;
    }
    assert(pat@.subrange(0, pat@.len() as int) =~= pat@);
    true
}

fn occurs(text: &Vec<char>, pat: &str) -> (r: bool)
    ensures
        r == occurs_in(text@, pat@),
{
    let p = chars_of(pat);
    if p.len() > text.len() {
        return false;
    }
    let last = text.len() - p.len();
    let mut i: usize = 0;
    loop
        invariant
            p@ == pat@,
            last + p@.len() == text@.len(),
            i <= last,
            forall|j: int| 0 <= j < i ==> !occurs_at(text@, pat@, j),
        decreases last - i,
    {
        if matches_at(text, &p, i) {
            assert(occurs_at(text@, pat@, i as int));
            return true;
        }
        if i == last {
            return false;
        }
        i = i + 1;
    }
}

/// Classifies an already lowercased user agent: `Mobile` where it contains
/// "mobile", "android", "iphone" or "ipad", else `Desktop`.
pub fn classify_lowered(lowered: &str) -> (r: DeviceType)
    ensures
        r == (if names_mobile(lowered@) {
            DeviceType::Mobile
        } else {
            DeviceType::Desktop
        }),
{
    let text = chars_of(lowered);
    if occurs(&text, "mobile") || occurs(&text, "android") || occurs(&text, "iphone") || occurs(
        &text,
        "ipad",
    ) {
        DeviceType::Mobile
    } else {
        DeviceType::Desktop
    }
}

/// Classifies a user agent, matching without regard to case; a missing one
/// is `Unknown`.
pub fn classify_device(user_agent: Option<&str>) -> (r: DeviceType)
    ensures
        r == device_of(view_of(user_agent)),
{
    match user_agent {
        None => DeviceType::Unknown,
        Some(ua) => {
            let lowered = to_lowercase(ua);
            classify_lowered(lowered.as_str())
        },
    }
}

/// The recorded device name of a user agent: "Mobile", "Desktop" or "Unknown".
pub fn get_device_type(user_agent: Option<&str>) -> (r: String)
    ensures
        r@ == device_label(device_of(view_of(user_agent))),
{
    classify_device(user_agent).label()
}

} // verus!
