use vstd::prelude::*;

verus! {

/// One record of the orders document: an integer identifier, a date string
/// and a status string.
pub struct OrderStatus {
    pub order_id: i32,
    pub order_date: String,
    pub status: String,
}

/// The mathematical image of an [`OrderStatus`].
#[verifier::ext_equal]
pub struct OrderStatusModel {
    pub order_id: int,
    pub order_date: Seq<char>,
    pub status: Seq<char>,
}

impl OrderStatusModel {
    /// The identifier fits the machine integer that carries it.
    pub open spec fn wf(&self) -> bool {
        -2147483648 <= self.order_id <= 2147483647
    }
}

impl View for OrderStatus {
    type V = OrderStatusModel;

    open spec fn view(&self) -> OrderStatusModel {
        OrderStatusModel {
            order_id: self.order_id as int,
            order_date: self.order_date@,
            status: self.status@,
        }
    }
}

impl DeepView for OrderStatus {
    type V = OrderStatusModel;

    open spec fn deep_view(&self) -> OrderStatusModel {
        self.view()
    }
}

} // verus!
