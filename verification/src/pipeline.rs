//! The pipeline around the bridge: decode, optional frame extraction,
//! conversion, with uniform error mapping and fail-fast composition.
//!
//! The replay decoder and the frame collector are outside collaborators.
//! The decoder is called here, behind trusted declarations; it is a pure
//! function of the buffer and its fixed configuration, so its outcome is
//! named (`decode_ok`, `decode_err_message`, and for the fused
//! decode-and-serialize stage `ser_ok` and `tree_of`) and the pipeline's
//! contracts are exact in those names. The frame collector is supplied by
//! the caller as a closure, and everything the pipeline decides about its
//! outcome is verified.

use vstd::prelude::*;

use crate::bridge::{convert, converts};
use crate::value::{number_wf, tree_wf, HostValue, NumKind, Tree};

verus! {

/// The single failure shape every stage's error is mapped into. It carries
/// only a display-ready message; which stage failed is left to the text.
#[derive(Debug)]
pub struct UniformError {
    pub message: String,
}

/// The error mapper: wraps a stage's message into the uniform failure,
/// unmodified.
pub fn map_error(message: String) -> (e: UniformError)
    ensures
        e.message@ == message@,
{
    UniformError { message }
}

#[verifier::external_type_specification]
#[verifier::external_body]
pub struct ExReplay(boxcars::Replay);

#[verifier::external_type_specification]
#[verifier::external_body]
pub struct ExJsonValue(serde_json::Value);

#[verifier::external_type_specification]
#[verifier::external_body]
pub struct ExJsonNumber(serde_json::Number);

/// The configured decode (network data required, CRC re-checked on error)
/// succeeds on exactly these buffers. The decoder is a pure function of the
/// bytes and that fixed configuration, so its outcome is a function of the
/// buffer alone.
pub uninterp spec fn decode_ok(data: Seq<u8>) -> bool;

/// The decoder's display-formatted message for a buffer the configured
/// decode rejects.
pub uninterp spec fn decode_err_message(data: Seq<u8>) -> Seq<char>;

/// Serializing the decoded replay's own representation into a value tree
/// succeeds on exactly these buffers (among those the decode accepts).
pub uninterp spec fn ser_ok(data: Seq<u8>) -> bool;

/// The decoded replay's own structured representation, as the library's
/// tree, for a buffer on which decode and serialization both succeed.
pub uninterp spec fn tree_of(data: Seq<u8>) -> Tree;

/// Relies on boxcars::ParserBuilder (new, must_parse_network_data,
/// on_error_check_crc, parse): one decode of the buffer, with network
/// frames required and the CRC re-verified on error before the failure is
/// surfaced; and on Display of boxcars::ParseError for the message. The
/// decode is deterministic in the bytes, which grounds the two names.
#[verifier::external_body]
fn decode_replay(data: &[u8]) -> (r: Result<boxcars::Replay, String>)
    ensures
        r is Ok <==> decode_ok(data@),
        r matches Err(m) ==> m@ == decode_err_message(data@),
{
    boxcars::ParserBuilder::new(data)
        .must_parse_network_data()
        .on_error_check_crc()
        .parse()
        .map_err(|e| format!("{}", e))
}

/// Relies on the same configured boxcars decode, followed by
/// serde_json::to_value over boxcars::Replay's Serialize impl. The two
/// stages are fused so that the decode-only path's outcome is a function of
/// the buffer and can be named: both are deterministic in the bytes (the
/// replay's fields are vectors and scalars, serialized in a fixed order).
/// A failed decode reports the decoder's message; the tree conversion is
/// `tree_to_value` below.
#[verifier::external_body]
fn decode_to_tree(data: &[u8]) -> (r: Result<Tree, String>)
    ensures
        r is Ok <==> (decode_ok(data@) && ser_ok(data@)),
        r matches Ok(t) ==> (t == tree_of(data@) && tree_wf(t)),
        r matches Err(m) ==> (!decode_ok(data@) ==> m@ == decode_err_message(data@)),
{
    let replay = match boxcars::ParserBuilder::new(data)
        .must_parse_network_data()
        .on_error_check_crc()
        .parse()
    {
        Ok(replay) => replay,
        Err(e) => return Err(format!("{}", e)),
    };
    match serde_json::to_value(&replay) {
        Ok(v) => Ok(tree_to_value(&v)),
        Err(e) => Err(format!("{}", e)),
    }
}

/// Relies on the public variants of serde_json::Value, read one arm each,
/// fields moved over unchanged. serde_json's map lists every key once, so
/// the tree comes out well-formed; a map's entries keep the order in which
/// the map iterates them, which the bridge does not rely on.
#[verifier::external_body]
fn tree_to_value(t: &serde_json::Value) -> (r: Tree)
    ensures
        tree_wf(r),
{
    match t {
        serde_json::Value::Null => Tree::Null,
        serde_json::Value::Bool(b) => Tree::Bool(*b),
        serde_json::Value::Number(n) => Tree::Num(number_of_tree(n)),
        serde_json::Value::String(s) => Tree::Text(s.clone()),
        serde_json::Value::Array(a) => Tree::List(a.iter().map(tree_to_value).collect()),
        serde_json::Value::Object(m) => Tree::Object(
            m.iter().map(|(k, val)| (k.clone(), tree_to_value(val))).collect(),
        ),
    }
}

/// Relies on serde_json::Number::{is_u64, as_u64, is_i64, as_i64, as_f64}:
/// the first matching representation wins, in the order unsigned, signed,
/// float; a number that is signed but not unsigned is negative in
/// serde_json's representation; the float case keeps the exact bit pattern.
#[verifier::external_body]
fn number_of_tree(n: &serde_json::Number) -> (r: NumKind)
    ensures
        number_wf(r),
{
    if n.is_u64() {
        NumKind::Unsigned(n.as_u64().unwrap())
    } else if n.is_i64() {
        NumKind::Signed(n.as_i64().unwrap())
    } else {
        match n.as_f64() {
            Option::Some(f) => NumKind::FloatBits(f.to_bits()),
            Option::None => NumKind::Malformed,
        }
    }
}

/// Decode stage: one call of the replay decoder on the raw buffer, with
/// network data required and the CRC re-checked on error. It succeeds on
/// exactly the buffers the configured decode accepts; a failure that
/// survives the recovery check comes back as the uniform error carrying the
/// decoder's message, and nothing downstream runs in that case.
pub fn run_decode(data: &[u8]) -> (r: Result<boxcars::Replay, UniformError>)
    ensures
        r is Ok <==> decode_ok(data@),
        r matches Err(e) ==> e.message@ == decode_err_message(data@),
{
    match decode_replay(data) {
        Result::Ok(replay) => Result::Ok(replay),
        Result::Err(message) => Result::Err(map_error(message)),
    }
}

/// Decode-only pipeline: decode, serialize, convert, in a strictly linear
/// sequence. It returns the bridged form of the decoded replay's own tree,
/// succeeds exactly when decode and serialization do, and the first failing
/// stage short-circuits with its uniform error and no partial result — a
/// failed decode carries the decoder's message.
pub fn run_decode_only(data: &[u8]) -> (r: Result<HostValue, UniformError>)
    ensures
        r is Ok <==> decode_ok(data@) && ser_ok(data@),
        r matches Ok(h) ==> tree_wf(tree_of(data@)) && converts(tree_of(data@), h),
        !decode_ok(data@) ==> (r matches Err(e) && e.message@ == decode_err_message(data@)),
{
    match decode_to_tree(data) {
        Result::Ok(tree) => Result::Ok(convert(&tree)),
        Result::Err(message) => Result::Err(map_error(message)),
    }
}

/// The externally callable decode operation, the same as `run_decode_only`.
pub fn parse_replay(data: &[u8]) -> (r: Result<HostValue, UniformError>)
    ensures
        r is Ok <==> decode_ok(data@) && ser_ok(data@),
        r matches Ok(h) ==> tree_wf(tree_of(data@)) && converts(tree_of(data@), h),
        !decode_ok(data@) ==> (r matches Err(e) && e.message@ == decode_err_message(data@)),
{
    run_decode_only(data)
}

/// What the frame collector hands back for one decoded replay: its metadata
/// tree together with the numeric feature array, or its failure message.
pub enum CollectorOutcome<A> {
    Collected(Tree, A),
    Failed(String),
}

/// Assembly stage of the extract pipeline, exact on every outcome: the
/// metadata converts through the bridge, the array passes through
/// unmodified, and a collector failure maps to the uniform error carrying
/// the collector's message.
pub fn finish_extract<A>(outcome: CollectorOutcome<A>) -> (r: Result<
    (HostValue, A),
    UniformError,
>)
    requires
        outcome matches CollectorOutcome::Collected(m, _) ==> tree_wf(m),
    ensures
        outcome matches CollectorOutcome::Collected(m, a) ==> r matches Ok(p) && converts(m, p.0)
            && p.1 == a,
        outcome matches CollectorOutcome::Failed(msg) ==> r matches Err(e) && e.message@ == msg@,
{
    match outcome {
        CollectorOutcome::Collected(m, a) => Result::Ok((convert(&m), a)),
        CollectorOutcome::Failed(msg) => Result::Err(map_error(msg)),
    }
}

/// Decode + extract pipeline: decode; only on success run the frame
/// collector the caller supplies; assemble. A decode failure
/// short-circuits — the collector is never invoked and the caller receives
/// exactly one uniform error, the decoder's. On a decoded replay, the
/// result is exactly the assembly of one collector outcome: the bridged
/// metadata with the collector's array unmodified, or the collector's
/// message as the one uniform error.
pub fn run_decode_and_extract<A, C: FnOnce(boxcars::Replay) -> CollectorOutcome<A>>(
    data: &[u8],
    collect: C,
) -> (r: Result<(HostValue, A), UniformError>)
    requires
        forall|replay: boxcars::Replay| #[trigger] call_requires(collect, (replay,)),
        forall|replay: boxcars::Replay, out: CollectorOutcome<A>|
            #[trigger] call_ensures(collect, (replay,), out) ==> (out matches
            CollectorOutcome::Collected(m, _) ==> tree_wf(m)),
    ensures
        r matches Ok(p) ==> exists|m: Tree| tree_wf(m) && #[trigger] converts(m, p.0),
        !decode_ok(data@) ==> (r matches Err(e) && e.message@ == decode_err_message(data@)),
        decode_ok(data@) ==> (r matches Ok(p) ==> exists|replay: boxcars::Replay, m: Tree|
            #[trigger] call_ensures(collect, (replay,), CollectorOutcome::Collected(m, p.1))
                && tree_wf(m) && converts(m, p.0)),
        decode_ok(data@) ==> (r matches Err(e) ==> exists|replay: boxcars::Replay, msg: String|
            #[trigger] call_ensures(collect, (replay,), CollectorOutcome::Failed(msg))
                && e.message@ == msg@),
{
    match run_decode(data) {
        Result::Err(e) => Result::Err(e),
        Result::Ok(replay) => {
            let ghost entered = replay;
            let outcome = collect(replay);
            let ghost witness = outcome;
            let result = finish_extract(outcome);
            proof {
                match witness {
                    CollectorOutcome::Collected(m, a) => {
                        assert(result matches Ok(p) && converts(m, p.0) && p.1 == a);
                        assert(call_ensures(
                            collect,
                            (entered,),
                            CollectorOutcome::Collected(m, result->Ok_0.1),
                        ));
                        assert(tree_wf(m) && converts(m, result->Ok_0.0));
                    },
                    CollectorOutcome::Failed(msg) => {
                        assert(result matches Err(e) && e.message@ == msg@);
                        assert(call_ensures(collect, (entered,), CollectorOutcome::Failed(msg)));
                    },
                }
            }
            result
        },
    }
}

/// Metadata pipeline: decode, then the caller-supplied metadata pass over
/// the decoded replay, then the bridge on its tree. A decode failure
/// short-circuits with the decoder's message and the metadata pass is never
/// invoked; on a decoded replay the result is exactly one metadata
/// outcome, bridged, or its message as the one uniform error.
pub fn get_replay_meta<C: FnOnce(boxcars::Replay) -> Result<Tree, String>>(
    data: &[u8],
    meta_of: C,
) -> (r: Result<HostValue, UniformError>)
    requires
        forall|replay: boxcars::Replay| #[trigger] call_requires(meta_of, (replay,)),
        forall|replay: boxcars::Replay, out: Result<Tree, String>|
            #[trigger] call_ensures(meta_of, (replay,), out) ==> (out matches Ok(m) ==> tree_wf(
                m,
            )),
    ensures
        r matches Ok(h) ==> exists|m: Tree| tree_wf(m) && #[trigger] converts(m, h),
        !decode_ok(data@) ==> (r matches Err(e) && e.message@ == decode_err_message(data@)),
        decode_ok(data@) ==> (r matches Ok(h) ==> exists|replay: boxcars::Replay, m: Tree|
            #[trigger] call_ensures(meta_of, (replay,), Result::<Tree, String>::Ok(m))
                && tree_wf(m) && converts(m, h)),
        decode_ok(data@) ==> (r matches Err(e) ==> exists|replay: boxcars::Replay, msg: String|
            #[trigger] call_ensures(meta_of, (replay,), Result::<Tree, String>::Err(msg))
                && e.message@ == msg@),
{
    match run_decode(data) {
        Result::Err(e) => Result::Err(e),
        Result::Ok(replay) => {
            let ghost entered = replay;
            let outcome = meta_of(replay);
            let ghost witness = outcome;
            match outcome {
                Result::Ok(m) => {
                    let h = convert(&m);
                    proof {
                        assert(witness == Result::<Tree, String>::Ok(m));
                        assert(call_ensures(meta_of, (entered,), witness));
                        assert(tree_wf(m) && converts(m, h));
                    }
                    Result::Ok(h)
                },
                Result::Err(msg) => {
                    let e = map_error(msg);
                    proof {
                        assert(witness matches Result::Err(message) && e.message@ == message@);
                        assert(call_ensures(meta_of, (entered,), witness));
                    }
                    Result::Err(e)
                },
            }
        },
    }
}

} // verus!
