//! The contracts-module call builder.
//!
//! A [`Call`] is a named (module, function) pair plus an ordered sequence of
//! already-encoded argument byte strings, immutable once constructed. Its
//! encoding is `(moduleTag, functionTag, argument-bytes...)` concatenated
//! with no delimiters, relying on each argument's self-describing length.
//!
//! [`ModuleCalls`] binds a call family's required capability set to a target
//! runtime's declared set; every builder checks the requirement before
//! encoding and fails with `MissingCapability` exactly when it does not
//! hold. A built call is inert: nothing is executed locally, and no local
//! validation of forwarded code, data or balances is performed.

use vstd::prelude::*;

use crate::capability::{CapabilitySet, Contracts, RuntimeCapability};
use crate::codec::{
    compact_encode,
    compact_encode_bytes,
    push_bytes,
    spec_compact,
    spec_compact_bytes,
};
use crate::errors::ClientError;
use crate::types::{AccountId, Balance, Encoded, Gas, Hash32};

verus! {

/// Function tag of `put_code` within the contracts module.
pub const PUT_CODE_FUNCTION_TAG: u8 = 0;

/// Function tag of `create` within the contracts module.
pub const CREATE_FUNCTION_TAG: u8 = 1;

/// Function tag of `call` within the contracts module.
pub const CALL_FUNCTION_TAG: u8 = 2;

/// The concatenation of already-encoded argument byte strings, in declared
/// order, with no padding.
pub open spec fn concat_args(args: Seq<Seq<u8>>) -> Seq<u8>
    decreases args.len(),
{
    if args.len() == 0 {
        Seq::empty()
    } else {
        args[0] + concat_args(args.skip(1))
    }
}

/// The byte offset of argument `i` within the concatenation of `args`.
pub open spec fn arg_offset(args: Seq<Seq<u8>>, i: int) -> int
    decreases i,
{
    if i <= 0 {
        0
    } else {
        args[0].len() + arg_offset(args.skip(1), i - 1)
    }
}

/// Splitting a concatenation of arguments on the declared boundaries
/// recovers each argument's bytes exactly.
proof fn lemma_split_recovers_arg(args: Seq<Seq<u8>>, i: int)
    requires
        0 <= i < args.len(),
    ensures
        0 <= arg_offset(args, i),
        arg_offset(args, i) + args[i].len() <= concat_args(args).len(),
        concat_args(args).subrange(
            arg_offset(args, i),
            arg_offset(args, i) + args[i].len(),
        ) == args[i],
    decreases i,
{
    let whole = concat_args(args);
    if i == 0 {
        assert(whole == args[0] + concat_args(args.skip(1)));
        assert(whole.subrange(0, args[0].len() as int) =~= args[0]);
    } else {
        let rest = args.skip(1);
        lemma_split_recovers_arg(rest, i - 1);
        assert(args[i] == rest[i - 1]);
        let off: int = arg_offset(rest, i - 1);
        assert(arg_offset(args, i) == args[0].len() + off);
        assert(whole.subrange(
            args[0].len() + off,
            args[0].len() + off + rest[i - 1].len(),
        ) =~= concat_args(rest).subrange(off, off + rest[i - 1].len()));
    }
}

/// An inert, encoded description of a remote operation, not yet submitted:
/// the target module and function tags and the already-encoded arguments,
/// in order. Immutable once constructed and owned by whoever built it until
/// handed to the transport collaborator.
#[derive(Debug)]
pub struct Call {
    pub module_tag: u8,
    pub function_tag: u8,
    pub args: Vec<Vec<u8>>,
}

impl Call {
    /// The argument byte strings, as sequences.
    pub open spec fn args_view(self) -> Seq<Seq<u8>> {
        self.args@.map_values(|a: Vec<u8>| a@)
    }

    /// The wire bytes of this call: both tags, then the arguments
    /// concatenated in declared order with no delimiters.
    pub open spec fn spec_encoding(self) -> Seq<u8> {
        seq![self.module_tag, self.function_tag] + concat_args(self.args_view())
    }

    /// Encode this call into an opaque payload.
    pub fn encode(&self) -> (p: Encoded)
        ensures
            p.bytes@ == self.spec_encoding(),
    {
        let mut out: Vec<u8> = Vec::new();
        out.push(self.module_tag);
        out.push(self.function_tag);
        proof {
            assert(self.args_view().skip(0) =~= self.args_view());
            assert(out@ =~= seq![self.module_tag, self.function_tag]);
        }
        let mut i: usize = 0;
        while i < self.args.len()
            invariant
                i <= self.args@.len(),
                self.spec_encoding() == out@ + concat_args(self.args_view().skip(i as int)),
            decreases self.args@.len() - i,
        {
            let ghost before = out@;
            let ghost tail = self.args_view().skip(i as int);
            push_bytes(&mut out, &self.args[i]);
            i = i + 1;
            proof {
                assert(tail[0] == self.args_view()[i - 1]);
                assert(tail.skip(1) =~= self.args_view().skip(i as int));
                assert(before + concat_args(tail) =~= out@ + concat_args(
                    self.args_view().skip(i as int),
                ));
            }
        }
        proof {
            assert(self.args_view().skip(self.args@.len() as int) =~= Seq::<Seq<u8>>::empty());
            assert(self.spec_encoding() =~= out@);
        }
        Encoded { bytes: out }
    }
}

/// Splitting an encoded call on its declared field boundaries recovers each
/// argument's byte segment exactly: argument `i` stands at offset
/// `2 + arg_offset` and is byte-identical to what was put in.
pub proof fn lemma_call_split(c: Call, i: int)
    requires
        0 <= i < c.args_view().len(),
    ensures
        c.spec_encoding().len() == 2 + concat_args(c.args_view()).len(),
        0 <= arg_offset(c.args_view(), i),
        2 + arg_offset(c.args_view(), i) + c.args_view()[i].len() <= c.spec_encoding().len(),
        c.spec_encoding().subrange(
            2 + arg_offset(c.args_view(), i),
            2 + arg_offset(c.args_view(), i) + c.args_view()[i].len(),
        ) == c.args_view()[i],
{
    let args = c.args_view();
    lemma_split_recovers_arg(args, i);
    let off: int = arg_offset(args, i);
    assert(c.spec_encoding().subrange(2 + off, 2 + off + args[i].len()) =~= concat_args(
        args,
    ).subrange(off, off + args[i].len()));
}

/// The capability set the contracts call family requires of a target
/// runtime: accounts, balances and contract hosting, conjunctively.
pub open spec fn contracts_requirements() -> CapabilitySet {
    CapabilitySet { system: true, balances: true, contracts: true }
}

/// The call builders of one module, bound to a target runtime.
///
/// `required` is the capability set of the bound call family; `runtime` is
/// the set the target runtime declares; `module_tag` addresses the module on
/// the wire. Every builder checks `required` against `runtime` before
/// encoding, at construction time of the call, never after.
#[derive(Clone, Copy, Debug)]
pub struct ModuleCalls {
    pub required: CapabilitySet,
    pub runtime: CapabilitySet,
    pub module_tag: u8,
}

impl ModuleCalls {
    /// Whether the bound requirement holds of the target runtime.
    pub open spec fn satisfied(self) -> bool {
        self.required.spec_subset_of(self.runtime)
    }

    /// The first required capability the target runtime lacks. Meaningful
    /// only when `!self.satisfied()`.
    pub open spec fn missing(self) -> RuntimeCapability {
        self.required.spec_first_missing_in(self.runtime)
    }

    /// Bind the contracts call family to a target runtime: the builders
    /// will require accounts, balances and contract hosting, and address
    /// module `module_tag` on the wire.
    pub fn contracts<T: Contracts>(runtime: &T, module_tag: u8) -> (m: ModuleCalls)
        ensures
            m.required == contracts_requirements(),
            m.runtime == runtime.declared(),
            m.module_tag == module_tag,
    {
        ModuleCalls {
            required: CapabilitySet { system: true, balances: true, contracts: true },
            runtime: runtime.declared_capabilities(),
            module_tag,
        }
    }

    /// Build a call of this module from a function tag and already-encoded
    /// arguments. Fails with `MissingCapability`, naming the first absent
    /// capability, exactly when the bound requirement is not a subset of
    /// the runtime's declared set; otherwise it cannot fail.
    pub fn build(&self, function_tag: u8, args: Vec<Vec<u8>>) -> (r: Result<Call, ClientError>)
        ensures
            match r {
                Ok(c) => {
                    &&& self.satisfied()
                    &&& c.module_tag == self.module_tag
                    &&& c.function_tag == function_tag
                    &&& c.args == args
                },
                Err(e) => {
                    &&& !self.satisfied()
                    &&& e == ClientError::MissingCapability(self.missing())
                },
            },
    {
        if self.required.is_subset_of(&self.runtime) {
            Ok(Call { module_tag: self.module_tag, function_tag, args })
        } else {
            Err(ClientError::MissingCapability(self.required.first_missing_in(&self.runtime)))
        }
    }

    /// Build a call that will, when later submitted, persist `code` in the
    /// runtime's storage and yield a content hash usable as a creation
    /// reference. `code` is forwarded as opaque bytes: no local validation
    /// of its contents is performed, and its size is bounded only by the
    /// transport's own limits.
    pub fn put_code(&self, gas_limit: Gas, code: Vec<u8>) -> (r: Result<Encoded, ClientError>)
        ensures
            match r {
                Ok(p) => {
                    &&& self.satisfied()
                    &&& p.bytes@ == seq![self.module_tag, PUT_CODE_FUNCTION_TAG] + spec_compact(
                        gas_limit as u128,
                    ) + spec_compact_bytes(code@)
                },
                Err(e) => {
                    &&& !self.satisfied()
                    &&& e == ClientError::MissingCapability(self.missing())
                },
            },
    {
        let ghost code_bytes = code@;
        let mut args: Vec<Vec<u8>> = Vec::new();
        args.push(compact_encode(gas_limit as u128));
        args.push(compact_encode_bytes(&code));
        let c = self.build(PUT_CODE_FUNCTION_TAG, args)?;
        let p = c.encode();
        proof {
            lemma_two_args(c.args_view());
            assert(p.bytes@ =~= seq![self.module_tag, PUT_CODE_FUNCTION_TAG] + spec_compact(
                gas_limit as u128,
            ) + spec_compact_bytes(code_bytes));
        }
        Ok(p)
    }

    /// Build a call whose declared remote semantics are: derive a
    /// deterministic destination address from the sender identity and
    /// `code_hash`, transfer `endowment` to it, then execute `data` against
    /// the stored code referenced by `code_hash`; the resulting account's
    /// stored code becomes that program. The address derivation and any
    /// deposit policy are the remote runtime's, not checked here.
    pub fn create(
        &self,
        endowment: Balance,
        gas_limit: Gas,
        code_hash: Hash32,
        data: Vec<u8>,
    ) -> (r: Result<Encoded, ClientError>)
        requires
            code_hash.wf(),
        ensures
            match r {
                Ok(p) => {
                    &&& self.satisfied()
                    &&& p.bytes@ == seq![self.module_tag, CREATE_FUNCTION_TAG] + spec_compact(
                        endowment,
                    ) + spec_compact(gas_limit as u128) + code_hash.bytes@ + spec_compact_bytes(
                        data@,
                    )
                },
                Err(e) => {
                    &&& !self.satisfied()
                    &&& e == ClientError::MissingCapability(self.missing())
                },
            },
    {
        let ghost hash_bytes = code_hash.bytes@;
        let ghost data_bytes = data@;
        let mut args: Vec<Vec<u8>> = Vec::new();
        args.push(compact_encode(endowment));
        args.push(compact_encode(gas_limit as u128));
        args.push(code_hash.bytes);
        args.push(compact_encode_bytes(&data));
        let c = self.build(CREATE_FUNCTION_TAG, args)?;
        let p = c.encode();
        proof {
            lemma_four_args(c.args_view());
            assert(p.bytes@ =~= seq![self.module_tag, CREATE_FUNCTION_TAG] + spec_compact(
                endowment,
            ) + spec_compact(gas_limit as u128) + hash_bytes + spec_compact_bytes(data_bytes));
        }
        Ok(p)
    }

    /// Build a call whose declared remote semantics are: if `dest` names an
    /// account with stored code, execute it with `data` and transfer
    /// `value`; if `dest` names a plain account, only transfer `value`; if
    /// `dest` does not yet exist and `value` meets the runtime's minimum
    /// existential amount, create it and transfer `value`. That minimum is
    /// a remote concern: a fresh `dest` with any `value`, however small,
    /// still encodes successfully here.
    pub fn call(
        &self,
        dest: AccountId,
        value: Balance,
        gas_limit: Gas,
        data: Vec<u8>,
    ) -> (r: Result<Encoded, ClientError>)
        requires
            dest.wf(),
        ensures
            match r {
                Ok(p) => {
                    &&& self.satisfied()
                    &&& p.bytes@ == seq![self.module_tag, CALL_FUNCTION_TAG] + dest.bytes@
                        + spec_compact(value) + spec_compact(gas_limit as u128)
                        + spec_compact_bytes(data@)
                },
                Err(e) => {
                    &&& !self.satisfied()
                    &&& e == ClientError::MissingCapability(self.missing())
                },
            },
    {
        let ghost dest_bytes = dest.bytes@;
        let ghost data_bytes = data@;
        let mut args: Vec<Vec<u8>> = Vec::new();
        args.push(dest.bytes);
        args.push(compact_encode(value));
        args.push(compact_encode(gas_limit as u128));
        args.push(compact_encode_bytes(&data));
        let c = self.build(CALL_FUNCTION_TAG, args)?;
        let p = c.encode();
        proof {
            lemma_four_args(c.args_view());
            assert(p.bytes@ =~= seq![self.module_tag, CALL_FUNCTION_TAG] + dest_bytes
                + spec_compact(value) + spec_compact(gas_limit as u128) + spec_compact_bytes(
                data_bytes,
            ));
        }
        Ok(p)
    }
}

proof fn lemma_two_args(args: Seq<Seq<u8>>)
    requires
        args.len() == 2,
    ensures
        concat_args(args) == args[0] + args[1],
{
    let rest = args.skip(1);
    assert(rest.skip(1) =~= Seq::<Seq<u8>>::empty());
    assert(concat_args(Seq::<Seq<u8>>::empty()) == Seq::<u8>::empty());
    assert(concat_args(rest) == rest[0] + concat_args(rest.skip(1)));
    assert(rest[0] == args[1]);
    assert(concat_args(args) == args[0] + concat_args(rest));
    assert(concat_args(args) =~= args[0] + args[1]);
}

proof fn lemma_four_args(args: Seq<Seq<u8>>)
    requires
        args.len() == 4,
    ensures
        concat_args(args) == args[0] + args[1] + args[2] + args[3],
{
    let r1 = args.skip(1);
    let r2 = args.skip(2);
    let r3 = args.skip(3);
    assert(r1.skip(1) =~= r2);
    assert(r2.skip(1) =~= r3);
    assert(r3.skip(1) =~= Seq::<Seq<u8>>::empty());
    assert(r1[0] == args[1]);
    assert(r2[0] == args[2]);
    assert(r3[0] == args[3]);
    assert(concat_args(Seq::<Seq<u8>>::empty()) == Seq::<u8>::empty());
    assert(concat_args(r3) == r3[0] + concat_args(r3.skip(1)));
    assert(concat_args(r2) == r2[0] + concat_args(r2.skip(1)));
    assert(concat_args(r1) == r1[0] + concat_args(r1.skip(1)));
    assert(concat_args(args) == args[0] + concat_args(r1));
    assert(concat_args(args) =~= args[0] + args[1] + args[2] + args[3]);
}

} // verus!
