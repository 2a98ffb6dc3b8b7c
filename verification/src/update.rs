//! One market event and its mathematical model.
use vstd::prelude::*;
use crate::text::{num_text_negative, valid_num_text};

verus! {

/// One market event: a trade or an order-book change. The two monetary
/// fields keep the decimal text they were parsed from, so that no binary
/// rounding is introduced by the core.
#[derive(Debug, PartialEq)]
pub struct Update {
    pub ts: u64,
    pub seq: u32,
    pub is_trade: bool,
    pub is_bid: bool,
    pub price: String,
    pub size: String,
}

/// The model of an [`Update`]: the same fields with text as `Seq<char>`.
pub ghost struct UpdateModel {
    pub ts: u64,
    pub seq: u32,
    pub is_trade: bool,
    pub is_bid: bool,
    pub price: Seq<char>,
    pub size: Seq<char>,
}

impl View for Update {
    type V = UpdateModel;

    open spec fn view(&self) -> UpdateModel {
        UpdateModel {
            ts: self.ts,
            seq: self.seq,
            is_trade: self.is_trade,
            is_bid: self.is_bid,
            price: self.price@,
            size: self.size@,
        }
    }
}

/// A monetary field: a decimal number, not below zero, of bounded length.
pub open spec fn ok_num_field(f: Seq<char>) -> bool {
    valid_num_text(f) && !num_text_negative(f) && f.len() <= 65535
}

impl UpdateModel {
    /// Both monetary fields are well-formed.
    pub open spec fn wf(self) -> bool {
        ok_num_field(self.price) && ok_num_field(self.size)
    }
}

impl Update {
    pub open spec fn wf(self) -> bool {
        self@.wf()
    }
}

impl Clone for Update {
    fn clone(&self) -> (r: Self)
        ensures
            r == *self,
    {
        Update {
            ts: self.ts,
            seq: self.seq,
            is_trade: self.is_trade,
            is_bid: self.is_bid,
            price: self.price.clone(),
            size: self.size.clone(),
        }
    }
}

/// The models of a sequence of updates.
pub open spec fn views_of(s: Seq<Update>) -> Seq<UpdateModel> {
    s.map_values(|u: Update| u@)
}

} // verus!
