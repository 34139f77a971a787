use vstd::prelude::*;

verus! {

/// Standing of a node in the rewarded set.
#[derive(Clone, Copy, Debug, PartialEq, Eq, Structural)]
pub enum RewardedSetNodeStatus {
    Active,
    Standby,
}

impl RewardedSetNodeStatus {
    pub fn is_active(&self) -> (active: bool)
        ensures
            active == (*self is Active),
    {
        matches!(self, RewardedSetNodeStatus::Active)
    }
}

/// Position of a node in the mix topology: the gateway, or one of the three
/// mix layers.
#[derive(Copy, Clone, Debug, PartialEq, Eq, PartialOrd, Ord, Hash, Structural)]
pub enum Layer {
    Gateway,
    One,
    Two,
    Three,
}

/// Numeric code of a layer: 0 for the gateway, then the mix layer's number.
pub open spec fn layer_code(layer: Layer) -> u8 {
    match layer {
        Layer::Gateway => 0,
        Layer::One => 1,
        Layer::Two => 2,
        Layer::Three => 3,
    }
}

/// Text form of a layer: `gateway`, or the mix layer's number.
pub open spec fn layer_label(layer: Layer) -> Seq<char> {
    match layer {
        Layer::Gateway => seq!['g', 'a', 't', 'e', 'w', 'a', 'y'],
        Layer::One => seq!['1'],
        Layer::Two => seq!['2'],
        Layer::Three => seq!['3'],
    }
}

impl Layer {
    pub fn code(&self) -> (code: u8)
        ensures
            code == layer_code(*self),
    {
        match self {
            Layer::Gateway => 0,
            Layer::One => 1,
            Layer::Two => 2,
            Layer::Three => 3,
        }
    }

    /// The layer's text form, as stored and displayed.
    pub fn label(&self) -> (label: String)
        ensures
            label@ == layer_label(*self),
    {
        let text = match self {
            Layer::Gateway => "gateway",
            Layer::One => "1",
            Layer::Two => "2",
            Layer::Three => "3",
        };
        proof {
            reveal_strlit("gateway");
            reveal_strlit("1");
            reveal_strlit("2");
            reveal_strlit("3");
        }
        let label = text.to_owned();
        assert(label@ =~= layer_label(*self));
        label
    }
}

/// A mix node as announced by its operator.
#[derive(Clone, Debug, PartialEq, Eq, PartialOrd)]
pub struct MixNode {
    pub host: String,
    pub mix_port: u16,
    pub verloc_port: u16,
    pub http_api_port: u16,
    pub sphinx_key: String,
    /// Base58 encoded ed25519 EdDSA public key.
    pub identity_key: String,
    pub version: String,
    pub profit_margin_percent: u8,
}

/// A gateway as announced by its operator.
#[derive(Clone, Debug, PartialEq, Eq, PartialOrd)]
pub struct Gateway {
    pub host: String,
    pub mix_port: u16,
    pub clients_port: u16,
    pub location: String,
    pub sphinx_key: String,
    /// Base58 encoded ed25519 EdDSA public key of the gateway used to derive
    /// shared keys with clients.
    pub identity_key: String,
    pub version: String,
}

/// An unsigned fixed-point number, held as its raw bit pattern.
#[derive(Clone, Copy, Debug, PartialEq, Eq, Structural)]
pub struct FixedU128 {
    pub bits: u128,
}

/// Outcome of rewarding one node for an epoch.
#[derive(Debug, Copy, Clone)]
pub struct NodeRewardResult {
    reward: FixedU128,
    lambda: FixedU128,
    sigma: FixedU128,
}

impl NodeRewardResult {
    pub fn new(reward: FixedU128, lambda: FixedU128, sigma: FixedU128) -> (result: Self)
        ensures
            result.reward_spec() == reward,
            result.lambda_spec() == lambda,
            result.sigma_spec() == sigma,
    {
        NodeRewardResult { reward, lambda, sigma }
    }

    pub closed spec fn reward_spec(&self) -> FixedU128 {
        self.reward
    }

    pub closed spec fn lambda_spec(&self) -> FixedU128 {
        self.lambda
    }

    pub closed spec fn sigma_spec(&self) -> FixedU128 {
        self.sigma
    }

    pub fn reward(&self) -> (reward: FixedU128)
        ensures
            reward == self.reward_spec(),
    {
        self.reward
    }

    pub fn lambda(&self) -> (lambda: FixedU128)
        ensures
            lambda == self.lambda_spec(),
    {
        self.lambda
    }

    pub fn sigma(&self) -> (sigma: FixedU128)
        ensures
            sigma == self.sigma_spec(),
    {
        self.sigma
    }
}

/// Estimated split of a node's reward for an epoch.
pub struct RewardEstimate {
    pub total_node_reward: u64,
    pub operator_reward: u64,
    pub delegators_reward: u64,
    pub node_profit: u64,
    pub operator_cost: u64,
}

} // verus!
