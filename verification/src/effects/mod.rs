pub mod abstract_effect;
pub mod counting_effect;
pub mod fake_effect;

pub use abstract_effect::AbstractEffect;
pub use counting_effect::CountingEffect;
pub use fake_effect::FakeEffect;
