//! Query Team Cymru's IP-to-ASN mapping service over DNS.
//!
//! The library builds the DNS query names, parses the pipe-delimited TXT
//! answers, and merges origin and AS-information records. The DNS transport
//! itself is driven by the caller.

pub mod error;
pub mod lookup;
pub mod query;
pub mod records;
pub mod text;

pub use text::{parse_number, split_text, split_words, trim_text};
pub use query::{asn_query_name, ipv6_nibbles, origin_query_name, IpAddress};
pub use records::{
    parse_cymru_asn, parse_cymru_origin, parse_date, AsNumber, CymruASN, CymruOrigin, Date,
};
pub use error::Error;
pub use lookup::{
    cymru_asn_from_answer, cymru_origin_from_answer, expires_at, merge_records, CymruIP2ASN,
    lemma_lookup_run, lemma_one_result_per_as_number, Ip2AsnLookup, Ip2AsnStep, TxtAnswer,
};
