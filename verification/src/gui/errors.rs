//! What the desktop client tells its user about an error.

use crate::text;
use vstd::prelude::*;
use vstd::string::*;

verus! {

/// A text in lower case.
pub uninterp spec fn lowercase(s: Seq<char>) -> Seq<char>;

/// `str::to_lowercase` is a fixed function of the characters of the text.
#[verifier::external_body]
fn to_lowercase(s: &str) -> (r: String)
    ensures
        r@ == lowercase(s@),
{
    s.to_lowercase()
}

/// What the user is told about an error, from its message and that message in lower case. Where
/// several causes are named, the first in this list counts.
pub open spec fn friendly(raw: Seq<char>, lower: Seq<char>) -> Seq<char> {
    if text::has_text(lower, "insufficient balance"@) || text::has_text(lower, "402"@) {
        "API 余额不足，请前往 DeepSeek 控制台充值后重试。"@
    } else if text::has_text(lower, "invalid api key"@) || text::has_text(lower, "unauthorized"@)
        || text::has_text(lower, "401"@) {
        "API Key 无效或已过期，请在设置中重新配置。"@
    } else if text::has_text(lower, "rate limit"@) || text::has_text(lower, "429"@) {
        "请求过于频繁，请稍后重试。"@
    } else if text::has_text(lower, "403"@) {
        "无权访问该资源，请检查 API Key 权限。"@
    } else if text::has_text(lower, "timeout"@) || text::has_text(lower, "timed out"@) {
        "请求超时，请检查网络连接后重试。"@
    } else if text::has_text(lower, "connection"@) || text::has_text(lower, "network"@) {
        "网络连接失败，请检查网络设置。"@
    } else {
        raw
    }
}

/// What the user is told about an error, from its message and that message in lower case.
pub fn friendly_from_lowercase(raw: &str, lower: &str) -> (r: String)
    ensures
        r@ == friendly(raw@, lower@),
{
    if text::contains(lower, "insufficient balance") || text::contains(lower, "402") {
        return "API 余额不足，请前往 DeepSeek 控制台充值后重试。".to_string();
    }
    if text::contains(lower, "invalid api key") || text::contains(lower, "unauthorized")
        || text::contains(lower, "401") {
        return "API Key 无效或已过期，请在设置中重新配置。".to_string();
    }
    if text::contains(lower, "rate limit") || text::contains(lower, "429") {
        return "请求过于频繁，请稍后重试。".to_string();
    }
    if text::contains(lower, "403") {
        return "无权访问该资源，请检查 API Key 权限。".to_string();
    }
    if text::contains(lower, "timeout") || text::contains(lower, "timed out") {
        return "请求超时，请检查网络连接后重试。".to_string();
    }
    if text::contains(lower, "connection") || text::contains(lower, "network") {
        return "网络连接失败，请检查网络设置。".to_string();
    }
    raw.to_string()
}

/// What the user is told about an error; letter case in the message does not matter.
pub fn friendly_error_message(raw: &str) -> (r: String)
    ensures
        r@ == friendly(raw@, lowercase(raw@)),
{
    let lower: String = to_lowercase(raw);
    friendly_from_lowercase(raw, lower.as_str())
}

/// A message that names no known cause is shown as it is. Each known cause is told in its own words,
/// whatever else the message holds, but for the causes that weigh more: first the balance, then the
/// key, the rate, the permission, the time, and last the network.
pub proof fn causes_are_told(raw: Seq<char>, lower: Seq<char>)
    ensures
        ({
            let told = friendly(raw, lower);
            let balance = text::has_text(lower, "insufficient balance"@) || text::has_text(lower, "402"@);
            let key = text::has_text(lower, "invalid api key"@) || text::has_text(lower, "unauthorized"@) || text::has_text(
                lower,
                "401"@,
            );
            let rate = text::has_text(lower, "rate limit"@) || text::has_text(lower, "429"@);
            let permission = text::has_text(lower, "403"@);
            let time = text::has_text(lower, "timeout"@) || text::has_text(lower, "timed out"@);
            let network = text::has_text(lower, "connection"@) || text::has_text(lower, "network"@);
            &&& balance ==> told == "API 余额不足，请前往 DeepSeek 控制台充值后重试。"@
            &&& key && !balance ==> told == "API Key 无效或已过期，请在设置中重新配置。"@
            &&& rate && !balance && !key ==> told == "请求过于频繁，请稍后重试。"@
            &&& permission && !balance && !key && !rate ==> told
                == "无权访问该资源，请检查 API Key 权限。"@
            &&& time && !balance && !key && !rate && !permission ==> told
                == "请求超时，请检查网络连接后重试。"@
            &&& network && !balance && !key && !rate && !permission && !time ==> told
                == "网络连接失败，请检查网络设置。"@
            &&& !balance && !key && !rate && !permission && !time && !network ==> told == raw
        }),
{
}

} // verus!
