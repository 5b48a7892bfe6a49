//! Cache keys of tool calls: a hash over the tool, its arguments in
//! canonical form, the paths it works on and the stamp of the target.
use vstd::prelude::*;
use vstd::utf8::encode_utf8;
use vstd::string::StringExecFns;
use crate::hash::{hash_string, sha256_hex_digest};
use crate::json::{
    canonical, canonical_json, json_text, keys_are_distinct, lemma_order_is_free,
    same_but_for_order, to_json_text, Json, JsonValue,
};
use crate::text::{
    chars_of, decimal, is_digit, lemma_decimal_digits, lemma_decimal_injective, push_decimal,
    string_of,
};

verus! {

/// When a file was last changed, in nanoseconds since the Unix epoch, and
/// how large it is.
#[derive(Debug, Clone, Copy, PartialEq, Eq, Structural)]
pub struct PathStamp {
    pub mtime_nanos: u128,
    pub size_bytes: u64,
}

/// The stamp of a file that was last changed `mtime_nanos` nanoseconds
/// after the Unix epoch and holds `size_bytes` bytes. A file whose time of
/// change cannot be told counts as changed at the epoch.
pub fn stamp_from(mtime_nanos: Option<u128>, size_bytes: u64) -> (stamp: PathStamp)
    ensures
        stamp.size_bytes == size_bytes,
        stamp.mtime_nanos == match mtime_nanos {
            Some(nanos) => nanos,
            None => 0,
        },
{
    PathStamp {
        mtime_nanos: match mtime_nanos {
            Some(nanos) => nanos,
            None => 0,
        },
        size_bytes,
    }
}

/// `c`, or a slash in place of a backslash.
pub open spec fn forward_slash(c: char) -> char {
    if c == '\\' {
        '/'
    } else {
        c
    }
}

/// `path` with a slash in place of every backslash.
pub open spec fn normalized_path(path: Seq<char>) -> Seq<char> {
    Seq::new(path.len(), |i: int| forward_slash(path[i]))
}

/// `path` with a slash in place of every backslash.
pub fn normalize_path(path: &str) -> (normal: String)
    ensures
        normal@ == normalized_path(path@),
{
    let chars = chars_of(path);
    let mut out: Vec<char> = Vec::new();
    let mut i: usize = 0;
    while i < chars.len()
        invariant
            i <= chars@.len(),
            out@.len() == i,
            forall|j: int| 0 <= j < i ==> #[trigger] out@[j] == forward_slash(chars@[j]),
        decreases chars@.len() - i,
    {
        let c = chars[i];
        if c == '\\' {
            out.push('/');
        } else {
            out.push(c);
        }
        i += 1;
    }
    assert(out@ == normalized_path(chars@));
    string_of(out.as_slice())
}

/// The stamp as the key holds it: the time of the last change, a bar, and
/// the size.
pub open spec fn stamp_text(stamp: PathStamp) -> Seq<char> {
    decimal(stamp.mtime_nanos as nat) + seq!['|'] + decimal(stamp.size_bytes as nat)
}

/// What a cache key is the hash of: the name of the tool, the arguments in
/// canonical form, the root of the workspace, the target and the stamp of
/// the target, with bars between them.
pub open spec fn raw_key(
    tool_name: Seq<char>,
    args: Json,
    workspace_root: Seq<char>,
    target_path: Seq<char>,
    stamp: PathStamp,
) -> Seq<char> {
    tool_name + seq!['|'] + json_text(canonical(args)) + seq!['|'] + normalized_path(workspace_root)
        + seq!['|'] + normalized_path(target_path) + seq!['|'] + stamp_text(stamp)
}

/// The cache key of a call of `tool_name` with `args` on `target_path`
/// below `workspace_root`, where the target bears `stamp`: the hash of the
/// five, in lower-case hexadecimal digits.
pub fn build_tool_cache_key(
    tool_name: &str,
    args: &JsonValue,
    workspace_root: &str,
    target_path: &str,
    stamp: PathStamp,
) -> (key: String)
    ensures
        key@ == sha256_hex_digest(
            encode_utf8(raw_key(tool_name@, args@, workspace_root@, target_path@, stamp)),
        ),
{
    let canonical_args = canonical_json(args);
    let serialized_args = to_json_text(&canonical_args);
    let workspace = normalize_path(workspace_root);
    let target = normalize_path(target_path);
    let mut raw = String::from_str(tool_name);
    raw.push('|');
    raw.append(serialized_args.as_str());
    raw.push('|');
    raw.append(workspace.as_str());
    raw.push('|');
    raw.append(target.as_str());
    raw.push('|');
    let ghost head = raw@;
    push_decimal(&mut raw, stamp.mtime_nanos);
    raw.push('|');
    push_decimal(&mut raw, stamp.size_bytes as u128);
    proof {
        assert(head == tool_name@ + seq!['|'] + json_text(canonical(args@)) + seq!['|']
            + normalized_path(workspace_root@) + seq!['|'] + normalized_path(target_path@) + seq![
            '|',
        ]);
        assert(raw@ == head + stamp_text(stamp));
    }
    hash_string(raw.as_str())
}

/// Different stamps have different texts.
pub proof fn lemma_stamp_text_injective(a: PathStamp, b: PathStamp)
    requires
        stamp_text(a) == stamp_text(b),
    ensures
        a == b,
{
    let am = decimal(a.mtime_nanos as nat);
    let bm = decimal(b.mtime_nanos as nat);
    let az = decimal(a.size_bytes as nat);
    let bz = decimal(b.size_bytes as nat);
    lemma_decimal_digits(a.mtime_nanos as nat);
    lemma_decimal_digits(b.mtime_nanos as nat);
    let ta = stamp_text(a);
    let tb = stamp_text(b);
    assert(ta[am.len() as int] == '|');
    assert(tb[bm.len() as int] == '|');
    if am.len() < bm.len() {
        assert(tb[am.len() as int] == bm[am.len() as int]);
        assert(is_digit(bm[am.len() as int]));
    }
    if bm.len() < am.len() {
        assert(ta[bm.len() as int] == am[bm.len() as int]);
        assert(is_digit(am[bm.len() as int]));
    }
    assert(am == ta.subrange(0, am.len() as int));
    assert(bm == tb.subrange(0, bm.len() as int));
    assert(az == ta.subrange(am.len() as int + 1, ta.len() as int));
    assert(bz == tb.subrange(bm.len() as int + 1, tb.len() as int));
    lemma_decimal_injective(a.mtime_nanos as nat, b.mtime_nanos as nat);
    lemma_decimal_injective(a.size_bytes as nat, b.size_bytes as nat);
}

/// A change of the stamp, and of nothing else, changes what the key is the
/// hash of.
pub proof fn lemma_stamp_changes_raw_key(
    tool_name: Seq<char>,
    args: Json,
    workspace_root: Seq<char>,
    target_path: Seq<char>,
    a: PathStamp,
    b: PathStamp,
)
    requires
        a != b,
    ensures
        raw_key(tool_name, args, workspace_root, target_path, a) != raw_key(
            tool_name,
            args,
            workspace_root,
            target_path,
            b,
        ),
{
    let head = tool_name + seq!['|'] + json_text(canonical(args)) + seq!['|'] + normalized_path(
        workspace_root,
    ) + seq!['|'] + normalized_path(target_path) + seq!['|'];
    let ka = raw_key(tool_name, args, workspace_root, target_path, a);
    let kb = raw_key(tool_name, args, workspace_root, target_path, b);
    assert(ka == head + stamp_text(a));
    assert(kb == head + stamp_text(b));
    if ka == kb {
        assert(stamp_text(a) == ka.subrange(head.len() as int, ka.len() as int));
        assert(stamp_text(b) == kb.subrange(head.len() as int, kb.len() as int));
        lemma_stamp_text_injective(a, b);
    }
}

/// The order in which the arguments list the members of their objects does
/// not show in the key: arguments that differ in nothing else are hashed as
/// the same text.
pub proof fn lemma_argument_order_is_free(
    tool_name: Seq<char>,
    a: Json,
    b: Json,
    workspace_root: Seq<char>,
    target_path: Seq<char>,
    stamp: PathStamp,
)
    requires
        same_but_for_order(a, b),
        keys_are_distinct(a),
        keys_are_distinct(b),
    ensures
        raw_key(tool_name, a, workspace_root, target_path, stamp) == raw_key(
            tool_name,
            b,
            workspace_root,
            target_path,
            stamp,
        ),
{
    lemma_order_is_free(a, b);
}

} // verus!
