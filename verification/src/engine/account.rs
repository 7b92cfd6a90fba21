//! The participants of the exchange and what they hold.
use vstd::prelude::*;

verus! {

/// A participant. A balance is in hundredths.
#[derive(Debug, PartialEq)]
pub struct User {
    pub user_id: u128,
    pub name: String,
    pub email: String,
    pub password: String,
    pub balance: Option<i64>,
}

/// What one participant holds of one instrument.
#[derive(Debug, Clone, Copy, PartialEq, Eq, Structural, PartialOrd, Ord, Hash)]
pub struct UserStocks {
    pub user_id: u128,
    pub stock_id: u128,
    pub quantity: i32,
}

impl Clone for User {
    fn clone(&self) -> (user: Self)
        ensures
            user == *self,
    {
        User {
            user_id: self.user_id,
            name: self.name.clone(),
            email: self.email.clone(),
            password: self.password.clone(),
            balance: self.balance,
        }
    }
}

impl User {
    pub fn new(
        user_id: u128,
        name: String,
        email: String,
        password: String,
        balance: Option<i64>,
    ) -> (user: Self)
        ensures
            user == (User { user_id, name, email, password, balance }),
    {
        User { user_id, name, email, password, balance }
    }
}

impl UserStocks {
    pub fn new(user_id: u128, stock_id: u128, quantity: i32) -> (held: Self)
        ensures
            held == (UserStocks { user_id, stock_id, quantity }),
    {
        UserStocks { user_id, stock_id, quantity }
    }
}

} // verus!
