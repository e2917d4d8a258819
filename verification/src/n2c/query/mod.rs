//! Wire encoding of query results.
//!
//! | Module       | Responsibility                                        |
//! |--------------|-------------------------------------------------------|
//! | `encoding`   | `encode_query_result` over every kind of result       |
//! | `ledger`     | outputs, stake and pools                              |
//! | `governance` | DReps, committee, constitution, proposals             |
//! | `protocol`   | protocol parameters, system start, era history        |
//! | `reading`    | what a client reads from the answers, word by word      |
//! | `utctime`    | ISO-8601 time stamps as ordinal dates                 |

pub mod encoding;
pub mod governance;
pub mod ledger;
pub mod protocol;
pub mod reading;
pub mod utctime;
