//! Verified core of a collection of small Python-extension exercises:
//! sequences, prime numbers, big-integer ranking, validated records and
//! the link-handling and bookkeeping logic of a same-domain web crawler.

pub mod intro;
pub mod text;
pub mod url_model;
pub mod html;
pub mod links;
pub mod thread_crawler;
pub mod async_crawler;
pub mod primes;
pub mod bignum;
pub mod top_k;
pub mod shopping;
pub mod people;
pub mod rectangle;
pub mod season;
pub mod account;
