//! A shopping order whose fields are checked on creation.
use vstd::prelude::*;

verus! {

/// Why an order cannot be created.
#[derive(Debug, Clone, Copy, PartialEq, Eq)]
pub enum OrderError {
    /// The price is not a non-negative integer that fits in 64 bits.
    PriceNegative,
    /// The price is zero.
    PriceZero,
    /// The quantity is not a non-negative integer that fits in 64 bits.
    QuantityNegative,
    /// The quantity is zero.
    QuantityZero,
    /// The name is empty.
    NameEmpty,
}

/// The checks of a new order, in the order they are made.
pub open spec fn order_check(name: Seq<char>, price: Option<u64>, quantity: Option<u64>) -> Option<
    OrderError,
> {
    if price is None {
        Some(OrderError::PriceNegative)
    } else if price == Some(0u64) {
        Some(OrderError::PriceZero)
    } else if quantity is None {
        Some(OrderError::QuantityNegative)
    } else if quantity == Some(0u64) {
        Some(OrderError::QuantityZero)
    } else if name.len() == 0 {
        Some(OrderError::NameEmpty)
    } else {
        None
    }
}

/// The checks of a new order: it is accepted exactly when the price and the
/// quantity are readable and positive and the name is not empty; otherwise
/// the first failing check, in the order price, quantity, name, is reported.
pub proof fn lemma_order_checks(name: Seq<char>, price: Option<u64>, quantity: Option<u64>)
    ensures
        order_check(name, price, quantity) is None <==> (price is Some && price->Some_0 > 0
            && quantity is Some && quantity->Some_0 > 0 && name.len() > 0),
        price is None ==> order_check(name, price, quantity) == Some(OrderError::PriceNegative),
        price == Some(0u64) ==> order_check(name, price, quantity) == Some(OrderError::PriceZero),
        price is Some && price->Some_0 > 0 && quantity is None ==> order_check(name, price, quantity)
            == Some(OrderError::QuantityNegative),
        price is Some && price->Some_0 > 0 && quantity == Some(0u64) ==> order_check(
            name,
            price,
            quantity,
        ) == Some(OrderError::QuantityZero),
        price is Some && price->Some_0 > 0 && quantity is Some && quantity->Some_0 > 0 && name.len() == 0
            ==> order_check(name, price, quantity) == Some(OrderError::NameEmpty),
{
}

/// A shopping order, mathematically.
pub struct OrderView {
    pub name: Seq<char>,
    pub price: u64,
    pub quantity: u64,
}

/// A shopping order: a named product with a positive price and a quantity.
pub struct ShoppingOrder {
    name: String,
    price: u64,
    quantity: u64,
}

impl View for ShoppingOrder {
    type V = OrderView;

    closed spec fn view(&self) -> OrderView {
        OrderView { name: self.name@, price: self.price, quantity: self.quantity }
    }
}

impl ShoppingOrder {
    #[verifier::type_invariant]
    spec fn valid(self) -> bool {
        self.price > 0 && self.name@.len() > 0
    }

    /// A new order. `price` and `quantity` are `None` where the given value is
    /// not a non-negative integer that fits in 64 bits. The checks, in order:
    /// the price is readable and not zero, the quantity is readable and not
    /// zero, the name is not empty.
    pub fn new(name: String, price: Option<u64>, quantity: Option<u64>) -> (r: Result<
        ShoppingOrder,
        OrderError,
    >)
        ensures
            r is Err <==> order_check(name@, price, quantity) is Some,
            r matches Err(e) ==> order_check(name@, price, quantity) == Some(e),
            r is Ok <==> (price is Some && price->Some_0 > 0 && quantity is Some && quantity->Some_0 > 0
                && name@.len() > 0),
            r matches Ok(o) ==> o@.price > 0 && o@.quantity > 0 && o@.name.len() > 0,
            r matches Ok(o) ==> o@ == (OrderView {
                name: name@,
                price: price->Some_0,
                quantity: quantity->Some_0,
            }),
    {
        let price: u64 = match price {
            Some(p) => p,
            None => return Err(OrderError::PriceNegative),
        };
        if price == 0 {
            return Err(OrderError::PriceZero);
        }
        let quantity: u64 = match quantity {
            Some(q) => q,
            None => return Err(OrderError::QuantityNegative),
        };
        if quantity == 0 {
            return Err(OrderError::QuantityZero);
        }
        if name.as_str().unicode_len() == 0 {
            return Err(OrderError::NameEmpty);
        }
        Ok(ShoppingOrder { name, price, quantity })
    }

    /// The product's name, never empty.
    pub fn name(&self) -> (r: String)
        ensures
            r@ == self@.name,
            r@.len() > 0,
    {
        proof {
            use_type_invariant(self);
        }
        self.name.clone()
    }

    /// The price, never zero.
    pub fn price(&self) -> (r: u64)
        ensures
            r == self@.price,
            r > 0,
    {
        proof {
            use_type_invariant(self);
        }
        self.price
    }

    /// The quantity.
    pub fn quantity(&self) -> (r: u64)
        ensures
            r == self@.quantity,
    {
        self.quantity
    }

    /// Sets the quantity; this setter does not check it.
    pub fn set_quantity(&mut self, quantity: u64)
        ensures
            final(self)@ == (OrderView { quantity, ..old(self)@ }),
    {
        proof {
            use_type_invariant(&*self);
        }
        self.quantity = quantity;
    }
}

} // verus!
