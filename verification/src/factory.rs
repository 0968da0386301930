use vstd::prelude::*;
use vstd::string::*;
use vstd::utf8::*;

use crate::params::{borsh_account_id, push_account_id};
use crate::types::account_id::{valid_account_seq, AccountId};
use crate::types::address::Address;
use crate::utils::forwarder_prefix_bytes;
use crate::wire::{
    all_hex_digits, hex_decoded, parse_hex, push_slice, strip_hex_prefix, strip_hex_prefix_start,
};

verus! {

/// How many relay actors one batch may provision at most.
pub const MAX_NUM_CONTRACTS: usize = 12;

/// The balance every freshly provisioned relay actor is funded with.
pub const INIT_BALANCE: u128 = 310_000_000_000_000_000_000_000;

/// Why a deployment batch was rejected.
#[derive(Debug, Clone, Copy, PartialEq, Eq)]
pub enum FactoryError {
    /// The batch holds no request.
    EmptyParameters,
    /// The batch holds more requests than the fixed maximum.
    TooManyParameters,
    /// A destination address is not forty hexadecimal digits.
    InvalidAddress,
    /// A derived actor identifier is not well-formed.
    InvalidAccountId,
}

/// One request to provision a relay actor.
pub struct DeployParameters {
    /// Destination address, as hexadecimal text with an optional leading
    /// "0x".
    pub target_address: String,
    /// The target network's own actor.
    pub target_network: AccountId,
    /// The wrapper actor for the native asset.
    pub wnear_contract_id: AccountId,
}

/// The mathematical shape of one deployment request.
pub struct DeployView {
    pub target_address: Seq<u8>,
    pub target_network: Seq<u8>,
    pub wnear_contract_id: Seq<u8>,
}

impl View for DeployParameters {
    type V = DeployView;

    open spec fn view(&self) -> DeployView {
        DeployView {
            target_address: encode_utf8(self.target_address@),
            target_network: self.target_network@,
            wnear_contract_id: self.wnear_contract_id@,
        }
    }
}

/// The identifier a relay actor for this request is provisioned under: the
/// derived prefix, a dot, and the factory's own name.
pub open spec fn derived_forwarder_id(
    address: Seq<u8>,
    network: Seq<u8>,
    fees: Seq<u8>,
    current: Seq<u8>,
) -> Seq<u8> {
    forwarder_prefix_bytes(address, network, fees) + seq![46u8] + current
}

/// True when one request can be provisioned: its address is forty
/// hexadecimal digits once "0x" is stripped, and the derived identifier is a
/// well-formed account identifier.
pub open spec fn deployable(p: DeployView, fees: Seq<u8>, current: Seq<u8>) -> bool {
    &&& strip_hex_prefix(p.target_address).len() == 40
    &&& all_hex_digits(strip_hex_prefix(p.target_address))
    &&& valid_account_seq(
        derived_forwarder_id(p.target_address, p.target_network, fees, current),
    )
}

/// The rejection one request earns, if any.
pub open spec fn deploy_item_error(p: DeployView, fees: Seq<u8>, current: Seq<u8>) -> Option<
    FactoryError,
> {
    if !(strip_hex_prefix(p.target_address).len() == 40 && all_hex_digits(
        strip_hex_prefix(p.target_address),
    )) {
        Some(FactoryError::InvalidAddress)
    } else if !valid_account_seq(
        derived_forwarder_id(p.target_address, p.target_network, fees, current),
    ) {
        Some(FactoryError::InvalidAccountId)
    } else {
        None
    }
}

/// The arguments the factory hands a fresh relay actor's constructor: its
/// configuration record followed by the factory as owner.
pub open spec fn forwarder_new_args_bytes(
    address: Seq<u8>,
    network: Seq<u8>,
    wnear: Seq<u8>,
    fees: Seq<u8>,
    owner: Seq<u8>,
) -> Seq<u8> {
    address + borsh_account_id(network) + borsh_account_id(wnear) + borsh_account_id(fees)
        + borsh_account_id(owner)
}

/// Encodes a fresh relay actor's constructor arguments.
pub fn forwarder_new_args(
    target_address: &Address,
    target_network: &AccountId,
    wnear_contract_id: &AccountId,
    fees_contract_id: &AccountId,
    owner_id: &AccountId,
) -> (r: Vec<u8>)
    requires
        target_network.wf(),
        wnear_contract_id.wf(),
        fees_contract_id.wf(),
        owner_id.wf(),
    ensures
        r@ == forwarder_new_args_bytes(
            target_address@,
            target_network@,
            wnear_contract_id@,
            fees_contract_id@,
            owner_id@,
        ),
{
    let mut out: Vec<u8> = Vec::new();
    push_slice(&mut out, target_address.0.as_slice());
    push_account_id(&mut out, target_network);
    push_account_id(&mut out, wnear_contract_id);
    push_account_id(&mut out, fees_contract_id);
    push_account_id(&mut out, owner_id);
    proof {
        assert(out@ =~= forwarder_new_args_bytes(
            target_address@,
            target_network@,
            wnear_contract_id@,
            fees_contract_id@,
            owner_id@,
        ));
    }
    out
}

/// Decodes a request's destination address into its twenty raw bytes.
pub fn decode_target_address(target_address: &String) -> (r: Option<Address>)
    ensures
        ({
            let stripped = strip_hex_prefix(encode_utf8(target_address@));
            match r {
                Some(addr) => stripped.len() == 40 && all_hex_digits(stripped) && addr@
                    == hex_decoded(stripped),
                None => !(stripped.len() == 40 && all_hex_digits(stripped)),
            }
        }),
{
    let bytes = target_address.as_str().as_bytes();
    let start = strip_hex_prefix_start(bytes);
    let blen: usize = bytes.len();
    match parse_hex(bytes, start, blen, 20) {
        Some(v) => {
            let mut addr: [u8; 20] = [0; 20];
            let mut i: usize = 0;
            while i < 20
                invariant
                    i <= 20,
                    v@.len() == 20,
                    v@ == hex_decoded(strip_hex_prefix(encode_utf8(target_address@))),
                    forall|k: int| 0 <= k < i ==> addr@[k] == #[trigger] v@[k],
                decreases 20 - i,
            {
                addr[i] = v[i];
                i = i + 1;
            }
            proof {
                assert(addr@ =~= v@);
            }
            Some(Address(addr))
        },
        None => None,
    }
}

/// The factory actor: it provisions relay actors under derived identifiers
/// and points them at one pricing actor.
pub struct AuroraForwarderFactory {
    owner: AccountId,
    fees_contract_id: AccountId,
}

impl AuroraForwarderFactory {
    /// The account that provisioned the factory.
    pub closed spec fn spec_owner(self) -> Seq<u8> {
        self.owner@
    }

    /// The pricing actor every provisioned relay is pointed at.
    pub closed spec fn spec_fees_contract_id(self) -> Seq<u8> {
        self.fees_contract_id@
    }

    /// True when the factory's identifiers are well-formed.
    pub closed spec fn wf(self) -> bool {
        self.fees_contract_id.wf()
    }

    /// A factory for `owner`, pricing through `fees_contract_id`.
    pub fn new(fees_contract_id: AccountId, owner: AccountId) -> (r: AuroraForwarderFactory)
        requires
            fees_contract_id.wf(),
        ensures
            r.wf(),
            r.spec_owner() == owner@,
            r.spec_fees_contract_id() == fees_contract_id@,
    {
        AuroraForwarderFactory { owner, fees_contract_id }
    }

    /// Points the factory at a new pricing actor.
    pub fn set_fees_contract_id(&mut self, fees_contract_id: AccountId)
        requires
            fees_contract_id.wf(),
        ensures
            final(self).wf(),
            final(self).spec_owner() == old(self).spec_owner(),
            final(self).spec_fees_contract_id() == fees_contract_id@,
    {
        self.fees_contract_id = fees_contract_id;
    }

    /// The pricing actor the factory points at.
    pub fn get_fees_contract_id(&self) -> (r: &AccountId)
        ensures
            r@ == self.spec_fees_contract_id(),
    {
        &self.fees_contract_id
    }

    /// Derives the identifiers a batch of relay actors will be provisioned
    /// under, in request order.
    ///
    /// The whole batch fails when it is empty, when it exceeds the fixed
    /// maximum, or on the first request whose address does not decode or
    /// whose derived identifier is not well-formed.
    #[verifier::loop_isolation(false)]
    pub fn create(&self, parameters: &Vec<DeployParameters>, current_account_id: &AccountId) -> (r:
        Result<Vec<AccountId>, FactoryError>)
        requires
            self.wf(),
        ensures
            create_result(
                parameters@.map_values(|p: DeployParameters| p@),
                self.spec_fees_contract_id(),
                current_account_id@,
                r,
            ),
    {
        let ghost views = parameters@.map_values(|p: DeployParameters| p@);
        let n: usize = parameters.len();
        if n == 0 {
            return Err(FactoryError::EmptyParameters);
        }
        if n > MAX_NUM_CONTRACTS {
            return Err(FactoryError::TooManyParameters);
        }
        let mut ids: Vec<AccountId> = Vec::new();
        let mut i: usize = 0;
        while i < n
            invariant
                i <= n,
                n == views.len(),
                n == parameters@.len(),
                views == parameters@.map_values(|p: DeployParameters| p@),
                self.wf(),
                ids@.len() == i,
                forall|k: int|
                    0 <= k < i ==> deployable(
                        #[trigger] views[k],
                        self.spec_fees_contract_id(),
                        current_account_id@,
                    ),
                forall|k: int|
                    0 <= k < i ==> #[trigger] ids@[k]@ == derived_forwarder_id(
                        views[k].target_address,
                        views[k].target_network,
                        self.spec_fees_contract_id(),
                        current_account_id@,
                    ),
            decreases n - i,
        {
            let params = &parameters[i];
            proof {
                assert(views[i as int] == params@);
            }
            if decode_target_address(&params.target_address).is_none() {
                proof {
                    assert(deploy_item_error(
                        views[i as int],
                        self.spec_fees_contract_id(),
                        current_account_id@,
                    ) == Some(FactoryError::InvalidAddress));
                    lemma_first_deploy_error_skip(
                        views,
                        self.spec_fees_contract_id(),
                        current_account_id@,
                        i as int,
                    );
                    assert(views.skip(i as int)[0] == views[i as int]);
                }
                return Err(FactoryError::InvalidAddress);
            }
            let prefix = crate::utils::forwarder_prefix_parts(
                params.target_address.as_str().as_bytes(),
                &params.target_network,
                &self.fees_contract_id,
            );
            let mut id_bytes = prefix;
            id_bytes.push(46);
            push_slice(&mut id_bytes, current_account_id.as_bytes());
            proof {
                assert(id_bytes@ =~= derived_forwarder_id(
                    views[i as int].target_address,
                    views[i as int].target_network,
                    self.spec_fees_contract_id(),
                    current_account_id@,
                ));
            }
            match AccountId::from_bytes(id_bytes.as_slice()) {
                Ok(id) => {
                    ids.push(id);
                },
                Err(_) => {
                    proof {
                        assert(deploy_item_error(
                            views[i as int],
                            self.spec_fees_contract_id(),
                            current_account_id@,
                        ) == Some(FactoryError::InvalidAccountId));
                        lemma_first_deploy_error_skip(
                            views,
                            self.spec_fees_contract_id(),
                            current_account_id@,
                            i as int,
                        );
                        assert(views.skip(i as int)[0] == views[i as int]);
                    }
                    return Err(FactoryError::InvalidAccountId);
                },
            }
            i = i + 1;
        }
        proof {
            lemma_first_deploy_error_skip(
                views,
                self.spec_fees_contract_id(),
                current_account_id@,
                n as int,
            );
            assert(views.skip(n as int) =~= Seq::<DeployView>::empty());
        }
        Ok(ids)
    }
}

/// The rejection the whole batch earns, if any: its size bounds first, then
/// the first failing request.
pub open spec fn first_deploy_error(views: Seq<DeployView>, fees: Seq<u8>, current: Seq<u8>)
    -> Option<FactoryError>
    decreases views.len(),
{
    if views.len() == 0 {
        None
    } else {
        match deploy_item_error(views[0], fees, current) {
            Some(e) => Some(e),
            None => first_deploy_error(views.drop_first(), fees, current),
        }
    }
}

/// What deriving a batch must return: every identifier in request order when
/// all requests are well-formed, and the exact rejection otherwise.
pub open spec fn create_result(
    views: Seq<DeployView>,
    fees: Seq<u8>,
    current: Seq<u8>,
    r: Result<Vec<AccountId>, FactoryError>,
) -> bool {
    if views.len() == 0 {
        r == Err::<Vec<AccountId>, FactoryError>(FactoryError::EmptyParameters)
    } else if views.len() > MAX_NUM_CONTRACTS {
        r == Err::<Vec<AccountId>, FactoryError>(FactoryError::TooManyParameters)
    } else {
        match first_deploy_error(views, fees, current) {
            Some(e) => r == Err::<Vec<AccountId>, FactoryError>(e),
            None => r matches Ok(ids) && ids@.len() == views.len() && forall|k: int|
                0 <= k < views.len() ==> #[trigger] ids@[k]@ == derived_forwarder_id(
                    views[k].target_address,
                    views[k].target_network,
                    fees,
                    current,
                ),
        }
    }
}

/// When every request before `i` is deployable, the batch's first rejection
/// is the first one at or after `i`.
pub proof fn lemma_first_deploy_error_skip(
    views: Seq<DeployView>,
    fees: Seq<u8>,
    current: Seq<u8>,
    i: int,
)
    requires
        0 <= i <= views.len(),
        forall|k: int| 0 <= k < i ==> deploy_item_error(#[trigger] views[k], fees, current)
            is None,
    ensures
        first_deploy_error(views, fees, current) == first_deploy_error(
            views.skip(i),
            fees,
            current,
        ),
    decreases i,
{
    if i == 0 {
        assert(views.skip(0) =~= views);
    } else {
        assert(deploy_item_error(views[0], fees, current) is None);
        assert(forall|k: int|
            0 <= k < i - 1 ==> #[trigger] views.drop_first()[k] == views[k + 1]);
        lemma_first_deploy_error_skip(views.drop_first(), fees, current, i - 1);
        assert(views.drop_first().skip(i - 1) =~= views.skip(i));
    }
}

} // verus!
