//! The contract calls this library prepares: the `set` call that writes a
//! document, the arguments of a `get` query, and how their outcome reads.
use vstd::prelude::*;

use crate::deposit::{
    delta_bytes, existing_view, quote_deposit, reconcile_deposit, required_amount, shortfall,
};
use crate::document::{build, build_document, check_path, lookup, is_path, view_entries, Doc, DocNode};
use crate::key_path::segments_view;
use crate::error::DocError;
use crate::json::{json_string_text, quote_json};

verus! {

/// The compact JSON text of a document: a leaf is its own text, a branch an
/// object whose members come in entry order.
pub open spec fn render(d: Doc) -> Seq<char>
    decreases d,
{
    match d {
        Doc::Leaf(t) => t,
        Doc::Branch(es) => seq!['{'] + render_members(es) + seq!['}'],
    }
}

/// The members of an object, separated by commas.
pub open spec fn render_members(es: Seq<(Seq<char>, Doc)>) -> Seq<char>
    decreases es,
{
    if es.len() == 0 {
        Seq::empty()
    } else if es.len() == 1 {
        json_string_text(es[0].0) + seq![':'] + render(es[0].1)
    } else {
        render_members(es.drop_last()) + seq![','] + json_string_text(es.last().0) + seq![':']
            + render(es.last().1)
    }
}

/// Writes the compact JSON text of `node`.
pub fn render_document(node: &DocNode) -> (r: String)
    ensures
        r@ == render(node@),
    decreases node,
{
    match node {
        DocNode::Leaf(t) => String::from_str(t.as_str()),
        DocNode::Branch(es) => {
            let ghost ve = view_entries(es@);
            proof {
                crate::document::lemma_view_entries(es@);
            }
            let mut out = String::from_str("{");
            proof {
                reveal_strlit("{");
                assert(ve.take(0) =~= Seq::<(Seq<char>, Doc)>::empty());
                assert(out@ =~= seq!['{'] + render_members(ve.take(0)));
            }
            let mut i: usize = 0;
            while i < es.len()
                invariant
                    i <= es.len(),
                    node@ == Doc::Branch(ve),
                    *node == DocNode::Branch(*es),
                    ve.len() == es.len(),
                    forall|m: int|
                        0 <= m < es.len() ==> #[trigger] ve[m] == (es@[m].key@, es@[m].node@),
                    out@ == seq!['{'] + render_members(ve.take(i as int)),
                decreases es.len() - i,
            {
                if i > 0 {
                    out.append(",");
                }
                let k = quote_json(es[i].key.as_str());
                out.append(k.as_str());
                out.append(":");
                proof {
                    vstd::std_specs::vec::axiom_vec_index_decreases(*es, i as int);
                    assert(decreases_to!(*node => *es));
                    assert(decreases_to!(*es => es[i as int]));
                    assert(decreases_to!(es[i as int] => es[i as int].node));
                }
                let child = render_document(&es[i].node);
                out.append(child.as_str());
                proof {
                    reveal_strlit(",");
                    reveal_strlit(":");
                    let t = ve.take(i as int + 1);
                    assert(t.drop_last() =~= ve.take(i as int));
                    assert(t.last() == ve[i as int]);
                    if i == 0 {
                        assert(render_members(ve.take(0)) =~= Seq::<char>::empty());
                    }
                    assert(out@ =~= seq!['{'] + render_members(t));
                }
                i = i + 1;
            }
            assert(ve.take(i as int) =~= ve);
            out.append("}");
            proof {
                reveal_strlit("}");
            }
            out
        },
    }
}


/// The serialized value stored at `path` in a `get` response, or nothing
/// when the response holds no value there.
pub fn existing_value_at(response: &DocNode, path: &Vec<String>) -> (r: Option<String>)
    ensures
        match lookup(response@, segments_view(path@)) {
            Some(d) => r matches Some(t) && t@ == render(d),
            None => r is None,
        },
{
    match response.get(path) {
        Some(node) => Some(render_document(node)),
        None => None,
    }
}

/// The gas ceiling attached to a `set` call: 300 TeraGas.
pub const SET_GAS: u64 = 300_000_000_000_000;

/// One contract call, ready to be signed and sent as it is.
pub struct CallDescriptor {
    pub receiver: String,
    pub method: String,
    pub args: String,
    pub gas: u64,
    pub deposit: u128,
}

/// The arguments of a `set` call that writes `d`.
pub open spec fn set_args_text(d: Doc) -> Seq<char> {
    "{\"data\":"@ + render(d) + "}"@
}

/// The `set` call that writes `data` to the contract `receiver`, carrying
/// `deposit` and the fixed gas ceiling.
pub fn build_set_call(receiver: String, data: &DocNode, deposit: u128) -> (r: CallDescriptor)
    ensures
        r.receiver@ == receiver@,
        r.method@ == "set"@,
        r.args@ == set_args_text(data@),
        r.gas == SET_GAS,
        r.deposit == deposit,
{
    let mut args = String::from_str("{\"data\":");
    let body = render_document(data);
    args.append(body.as_str());
    args.append("}");
    CallDescriptor { receiver, method: String::from_str("set"), args, gas: SET_GAS, deposit }
}

/// Prepares the call that writes `value` at `path`, priced against the value
/// stored there now. Fails with `InvalidKeyPath` on an empty path or segment,
/// and with `DepositShortfall` when the price of the added bytes is over
/// `ceiling`.
pub fn prepare_write(
    path: &Vec<String>,
    value: String,
    existing: &Option<String>,
    price_per_byte: u128,
    ceiling: u128,
    receiver: String,
) -> (r: Result<CallDescriptor, DocError>)
    ensures
        ({
            let p = segments_view(path@);
            let amount = required_amount(
                delta_bytes(existing_view(existing), value@),
                price_per_byte as nat,
            );
            &&& !is_path(p) ==> r == Err::<CallDescriptor, DocError>(DocError::InvalidKeyPath)
            &&& is_path(p) && amount > ceiling ==> r == Err::<CallDescriptor, DocError>(
                DocError::DepositShortfall,
            )
            &&& is_path(p) && amount <= ceiling ==> (r matches Ok(c) && c.receiver@ == receiver@
                && c.method@ == "set"@ && c.args@ == set_args_text(build(p, value@)) && c.gas
                == SET_GAS && c.deposit == amount)
        }),
{
    let quote = match quote_deposit(existing, &value, price_per_byte, ceiling) {
        Ok(q) => q,
        Err(e) => {
            if !check_path(path) {
                return Err(DocError::InvalidKeyPath);
            }
            return Err(e);
        },
    };
    let doc = build_document(path, value)?;
    Ok(build_set_call(receiver, &doc, quote.amount))
}

/// The call as it goes to signing: the deposit is cut to what the signer's
/// current reserve does not already cover.
pub fn reconcile_call(call: CallDescriptor, reserved: u128) -> (r: CallDescriptor)
    ensures
        r.receiver == call.receiver,
        r.method == call.method,
        r.args == call.args,
        r.gas == call.gas,
        r.deposit == shortfall(call.deposit as nat, reserved as nat),
{
    let deposit = reconcile_deposit(call.deposit, reserved);
    CallDescriptor { deposit, ..call }
}

/// How a submitted call ended.
pub enum TerminalStatus {
    Success,
    Failure(String),
}

/// A write succeeded exactly when its call ended in success; any other end
/// is a `SubmissionFailure` carrying the status text.
pub fn write_outcome(status: TerminalStatus) -> (r: Result<(), DocError>)
    ensures
        match status {
            TerminalStatus::Success => r is Ok,
            TerminalStatus::Failure(reason) => r == Err::<(), DocError>(
                DocError::SubmissionFailure(reason),
            ),
        },
{
    match status {
        TerminalStatus::Success => Ok(()),
        TerminalStatus::Failure(reason) => Err(DocError::SubmissionFailure(reason)),
    }
}

/// The query key that fetches every component of `account`: the wildcard
/// suffix asks for the whole subtree.
pub fn widget_query_key(account: &str) -> (r: String)
    ensures
        r@ == account@ + "/widget/**"@,
{
    let mut k = String::from_str(account);
    k.append("/widget/**");
    k
}

/// The keys of a query, quoted and separated by commas.
pub open spec fn keys_text(keys: Seq<Seq<char>>) -> Seq<char>
    decreases keys.len(),
{
    if keys.len() == 0 {
        Seq::empty()
    } else if keys.len() == 1 {
        json_string_text(keys[0])
    } else {
        keys_text(keys.drop_last()) + seq![','] + json_string_text(keys.last())
    }
}

/// The arguments of a `get` query for `keys`.
pub fn query_args(keys: &Vec<String>) -> (r: String)
    ensures
        r@ == "{\"keys\":["@ + keys_text(segments_view(keys@)) + "]}"@,
{
    let ghost ks = segments_view(keys@);
    let mut body = String::new();
    let mut i: usize = 0;
    while i < keys.len()
        invariant
            i <= keys.len(),
            ks == segments_view(keys@),
            body@ == keys_text(ks.take(i as int)),
        decreases keys.len() - i,
    {
        if i > 0 {
            body.append(",");
        }
        let q = quote_json(keys[i].as_str());
        body.append(q.as_str());
        proof {
            reveal_strlit(",");
            let t = ks.take(i as int + 1);
            assert(t.drop_last() =~= ks.take(i as int));
            if i == 0 {
                assert(ks.take(0) =~= Seq::<Seq<char>>::empty());
            }
            assert(body@ =~= keys_text(t));
        }
        i = i + 1;
    }
    assert(ks.take(i as int) =~= ks);
    let mut out = String::from_str("{\"keys\":[");
    out.append(body.as_str());
    out.append("]}");
    out
}

/// The contract configured for `network`: the first entry with that name.
pub open spec fn contract_of(config: Seq<(String, String)>, network: Seq<char>) -> Option<Seq<char>>
    decreases config.len(),
{
    if config.len() == 0 {
        None
    } else if config[0].0@ == network {
        Some(config[0].1@)
    } else {
        contract_of(config.drop_first(), network)
    }
}

/// Looks up the document store contract of `network` in `config`; fails
/// with `UnknownNetwork` when none is configured.
pub fn contract_for_network(config: &Vec<(String, String)>, network: &String) -> (r: Result<
    String,
    DocError,
>)
    ensures
        match contract_of(config@, network@) {
            Some(c) => r matches Ok(t) && t@ == c,
            None => r matches Err(DocError::UnknownNetwork(n)) && n@ == network@,
        },
{
    let mut i: usize = 0;
    assert(config@.skip(0) =~= config@);
    while i < config.len()
        invariant
            i <= config.len(),
            contract_of(config@, network@) == contract_of(config@.skip(i as int), network@),
        decreases config.len() - i,
    {
        let ghost rest = config@.skip(i as int);
        assert(rest.drop_first() =~= config@.skip(i as int + 1));
        if config[i].0 == *network {
            return Ok(String::from_str(config[i].1.as_str()));
        }
        i = i + 1;
    }
    Err(DocError::UnknownNetwork(String::from_str(network.as_str())))
}

} // verus!
