//! An in-process message bus: interned identifiers, a wildcard matcher,
//! prioritised subscriptions with a per-topic delivery cache, addressed
//! endpoints, one-shot correlation handlers, an actor registry and a queue
//! bridge for asynchronous consumers.
pub mod actor;
pub mod bus;
pub mod collections;
pub mod correctness;
pub mod enums;
pub mod handler;
pub mod identifiers;
pub mod listener;
pub mod matching;
pub mod message;
pub mod model;
pub mod subscription;
pub mod uuid4;

pub use bus::{
    deregister, is_subscribed, publish, register, register_response_handler, response, send,
    send_any, send_response, subscribe, subscribe_str, subscribe_topic, subscriptions_count,
    unsubscribe, unsubscribe_str, unsubscribe_topic, BusError, MessageBus,
};
pub use handler::{MessageHandler, ShareableMessageHandler};
pub use identifiers::{Endpoint, MStr, Pattern, Topic};
pub use matching::is_matching;
pub use model::{ComponentId, TraderId};
pub use subscription::Subscription;
pub use uuid4::UUID4;
