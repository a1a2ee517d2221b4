use vstd::prelude::*;

verus! {

/// A row of `products`.
#[derive(Debug)]
pub struct Product {
    pub id: i64,
    pub name: String,
}

/// A row of `customers`.
#[derive(Debug)]
pub struct Customer {
    pub id: i64,
    pub name: String,
}

/// The columns of an order that the caller supplies; the id is generated.
#[derive(Debug)]
pub struct NewOrder {
    pub customer_id: Option<i64>,
    pub product_id: Option<i64>,
    pub quantity: Option<i64>,
    pub order_date: Option<String>,
    pub completion_date: Option<String>,
    pub status: Option<String>,
    pub notes: Option<String>,
}

/// A row of `orders`.
#[derive(Debug)]
pub struct Order {
    pub id: i64,
    pub fields: NewOrder,
}

/// Why an insertion was refused.
#[derive(Clone, Copy, Debug, PartialEq, Eq, Structural)]
pub enum InsertError {
    /// A product of that name already exists.
    UniqueViolation,
    /// The order names a customer or a product that does not exist.
    ForeignKeyViolation,
    /// The table has used up its largest id.
    Full,
}

/// The rows of the three tables, and the largest id each table has handed out.
pub struct StoreView {
    pub products: Seq<Product>,
    pub customers: Seq<Customer>,
    pub orders: Seq<Order>,
    pub last_product_id: i64,
    pub last_customer_id: i64,
    pub last_order_id: i64,
}

pub open spec fn has_product_named(ps: Seq<Product>, name: Seq<char>) -> bool {
    exists|i: int| 0 <= i < ps.len() && (#[trigger] ps[i]).name@ == name
}

pub open spec fn has_product(ps: Seq<Product>, id: i64) -> bool {
    exists|i: int| 0 <= i < ps.len() && (#[trigger] ps[i]).id == id
}

pub open spec fn has_customer(cs: Seq<Customer>, id: i64) -> bool {
    exists|i: int| 0 <= i < cs.len() && (#[trigger] cs[i]).id == id
}

/// Each reference that an order sets names an existing row.
pub open spec fn references_exist(s: StoreView, o: NewOrder) -> bool {
    &&& (o.customer_id matches Some(c) ==> has_customer(s.customers, c))
    &&& (o.product_id matches Some(p) ==> has_product(s.products, p))
}

/// The outcome of inserting a product named `name` into `s`.
pub open spec fn product_insert_result(s: StoreView, name: Seq<char>) -> Result<i64, InsertError> {
    if has_product_named(s.products, name) {
        Err(InsertError::UniqueViolation)
    } else if s.last_product_id == i64::MAX {
        Err(InsertError::Full)
    } else {
        Ok((s.last_product_id + 1) as i64)
    }
}

/// `s` after a product named `name` was inserted.
pub open spec fn product_inserted(s: StoreView, name: String) -> StoreView {
    let id = (s.last_product_id + 1) as i64;
    StoreView { products: s.products.push(Product { id, name }), last_product_id: id, ..s }
}

/// The outcome of inserting a product named `name` into `s` with `OR IGNORE`:
/// a taken name gives `Ok(None)` and leaves the store as it is.
pub open spec fn product_or_ignore_result(s: StoreView, name: Seq<char>) -> Result<Option<i64>, InsertError> {
    if has_product_named(s.products, name) {
        Ok(None)
    } else {
        match product_insert_result(s, name) {
            Ok(id) => Ok(Some(id)),
            Err(e) => Err(e),
        }
    }
}

pub open spec fn has_customer_named(cs: Seq<Customer>, name: Seq<char>) -> bool {
    exists|i: int| 0 <= i < cs.len() && (#[trigger] cs[i]).name@ == name
}

/// The outcome of inserting a customer named `name` into `s` with
/// `OR IGNORE`: a name already present gives `Ok(None)` and leaves the store
/// as it is.
pub open spec fn customer_or_ignore_result(s: StoreView, name: Seq<char>) -> Result<Option<i64>, InsertError> {
    if has_customer_named(s.customers, name) {
        Ok(None)
    } else {
        match customer_insert_result(s) {
            Ok(id) => Ok(Some(id)),
            Err(e) => Err(e),
        }
    }
}

/// The outcome of inserting a customer into `s`: names need not be unique.
pub open spec fn customer_insert_result(s: StoreView) -> Result<i64, InsertError> {
    if s.last_customer_id == i64::MAX {
        Err(InsertError::Full)
    } else {
        Ok((s.last_customer_id + 1) as i64)
    }
}

/// `s` after a customer named `name` was inserted.
pub open spec fn customer_inserted(s: StoreView, name: String) -> StoreView {
    let id = (s.last_customer_id + 1) as i64;
    StoreView { customers: s.customers.push(Customer { id, name }), last_customer_id: id, ..s }
}

/// The outcome of inserting the order `o` into `s`.
pub open spec fn order_insert_result(s: StoreView, o: NewOrder) -> Result<i64, InsertError> {
    if !references_exist(s, o) {
        Err(InsertError::ForeignKeyViolation)
    } else if s.last_order_id == i64::MAX {
        Err(InsertError::Full)
    } else {
        Ok((s.last_order_id + 1) as i64)
    }
}

/// `s` after the order `o` was inserted.
pub open spec fn order_inserted(s: StoreView, o: NewOrder) -> StoreView {
    let id = (s.last_order_id + 1) as i64;
    StoreView { orders: s.orders.push(Order { id, fields: o }), last_order_id: id, ..s }
}

/// An in-memory store of the three tables that enforces their constraints:
/// product names are unique, an order may only reference existing customers
/// and products, and ids grow from 1 and are never reused.
pub struct Store {
    products: Vec<Product>,
    customers: Vec<Customer>,
    orders: Vec<Order>,
    last_product_id: i64,
    last_customer_id: i64,
    last_order_id: i64,
}

impl View for Store {
    type V = StoreView;

    closed spec fn view(&self) -> StoreView {
        StoreView {
            products: self.products@,
            customers: self.customers@,
            orders: self.orders@,
            last_product_id: self.last_product_id,
            last_customer_id: self.last_customer_id,
            last_order_id: self.last_order_id,
        }
    }
}

/// The store's invariant: ids are positive, strictly increasing and no larger
/// than the last one handed out; product names are unique; every order's
/// references exist.
pub open spec fn store_wf(s: StoreView) -> bool {
    &&& 0 <= s.last_product_id && 0 <= s.last_customer_id && 0 <= s.last_order_id
    &&& forall|i: int| 0 <= i < s.products.len() ==> 1 <= (#[trigger] s.products[i]).id <= s.last_product_id
    &&& forall|i: int, j: int| 0 <= i < j < s.products.len() ==> s.products[i].id < s.products[j].id
    &&& forall|i: int, j: int| 0 <= i < j < s.products.len() ==> s.products[i].name@ != s.products[j].name@
    &&& forall|i: int| 0 <= i < s.customers.len() ==> 1 <= (#[trigger] s.customers[i]).id <= s.last_customer_id
    &&& forall|i: int, j: int| 0 <= i < j < s.customers.len() ==> s.customers[i].id < s.customers[j].id
    &&& forall|i: int| 0 <= i < s.orders.len() ==> 1 <= (#[trigger] s.orders[i]).id <= s.last_order_id
    &&& forall|i: int, j: int| 0 <= i < j < s.orders.len() ==> s.orders[i].id < s.orders[j].id
    &&& forall|i: int| 0 <= i < s.orders.len() ==> references_exist(s, (#[trigger] s.orders[i]).fields)
}

impl Store {
    pub open spec fn wf(&self) -> bool {
        store_wf(self@)
    }

    /// An empty store.
    pub fn new() -> (r: Store)
        ensures
            r.wf(),
            r@.products.len() == 0,
            r@.customers.len() == 0,
            r@.orders.len() == 0,
            r@.last_product_id == 0,
            r@.last_customer_id == 0,
            r@.last_order_id == 0,
    {
        Store {
            products: Vec::new(),
            customers: Vec::new(),
            orders: Vec::new(),
            last_product_id: 0,
            last_customer_id: 0,
            last_order_id: 0,
        }
    }

    pub fn products(&self) -> (r: &Vec<Product>)
        ensures
            r@ == self@.products,
    {
        &self.products
    }

    pub fn customers(&self) -> (r: &Vec<Customer>)
        ensures
            r@ == self@.customers,
    {
        &self.customers
    }

    pub fn orders(&self) -> (r: &Vec<Order>)
        ensures
            r@ == self@.orders,
    {
        &self.orders
    }

    /// Whether some product is named `name`.
    pub fn has_product_named(&self, name: &String) -> (r: bool)
        ensures
            r == has_product_named(self@.products, name@),
    {
        let mut i: usize = 0;
        while i < self.products.len()
            invariant
                0 <= i <= self.products.len(),
                forall|j: int| 0 <= j < i ==> self.products@[j].name@ != name@,
            decreases self.products.len() - i,
        {
            if self.products[i].name == *name {
                return true;
            }
            i = i + 1;
        }
        false
    }

    /// Whether a product has the id `id`.
    pub fn has_product(&self, id: i64) -> (r: bool)
        ensures
            r == has_product(self@.products, id),
    {
        let mut i: usize = 0;
        while i < self.products.len()
            invariant
                0 <= i <= self.products.len(),
                forall|j: int| 0 <= j < i ==> self.products@[j].id != id,
            decreases self.products.len() - i,
        {
            if self.products[i].id == id {
                return true;
            }
            i = i + 1;
        }
        false
    }

    /// Whether a customer has the id `id`.
    pub fn has_customer(&self, id: i64) -> (r: bool)
        ensures
            r == has_customer(self@.customers, id),
    {
        let mut i: usize = 0;
        while i < self.customers.len()
            invariant
                0 <= i <= self.customers.len(),
                forall|j: int| 0 <= j < i ==> self.customers@[j].id != id,
            decreases self.customers.len() - i,
        {
            if self.customers[i].id == id {
                return true;
            }
            i = i + 1;
        }
        false
    }

    /// Inserts a product; a name that is already taken is refused.
    pub fn insert_product(&mut self, name: String) -> (r: Result<i64, InsertError>)
        requires
            old(self).wf(),
        ensures
            final(self).wf(),
            r == product_insert_result(old(self)@, name@),
            r is Ok ==> final(self)@ == product_inserted(old(self)@, name),
            r is Err ==> final(self)@ == old(self)@,
    {
        if self.has_product_named(&name) {
            return Err(InsertError::UniqueViolation);
        }
        if self.last_product_id == i64::MAX {
            return Err(InsertError::Full);
        }
        let ghost pre = self@;
        let id = self.last_product_id + 1;
        self.products.push(Product { id, name });
        self.last_product_id = id;
        proof {
            let s = self@;
            assert forall|i: int, j: int| 0 <= i < j < s.products.len()
                implies s.products[i].name@ != s.products[j].name@ by {
                if j == s.products.len() - 1 {
                    assert(pre.products[i] == s.products[i]);
                }
            }
            lemma_more_products_keep_orders(pre, s);
        }
        Ok(id)
    }

    /// Inserts a product unless one of that name exists, in which case the
    /// store is left as it is and `Ok(None)` is returned.
    pub fn insert_product_or_ignore(&mut self, name: String) -> (r: Result<Option<i64>, InsertError>)
        requires
            old(self).wf(),
        ensures
            final(self).wf(),
            r == product_or_ignore_result(old(self)@, name@),
            r matches Ok(Some(_)) ==> final(self)@ == product_inserted(old(self)@, name),
            !(r matches Ok(Some(_))) ==> final(self)@ == old(self)@,
    {
        if self.has_product_named(&name) {
            return Ok(None);
        }
        match self.insert_product(name) {
            Ok(id) => Ok(Some(id)),
            Err(e) => Err(e),
        }
    }

    /// Inserts a customer; names need not be unique.
    pub fn insert_customer(&mut self, name: String) -> (r: Result<i64, InsertError>)
        requires
            old(self).wf(),
        ensures
            final(self).wf(),
            r == customer_insert_result(old(self)@),
            r is Ok ==> final(self)@ == customer_inserted(old(self)@, name),
            r is Err ==> final(self)@ == old(self)@,
    {
        if self.last_customer_id == i64::MAX {
            return Err(InsertError::Full);
        }
        let ghost pre = self@;
        let id = self.last_customer_id + 1;
        self.customers.push(Customer { id, name });
        self.last_customer_id = id;
        proof {
            let s = self@;
            assert(store_wf(pre));
            assert(s.products == pre.products);
            assert forall|i: int| 0 <= i < s.customers.len() implies 1 <= (#[trigger] s.customers[i]).id <= s.last_customer_id by {
                if i < s.customers.len() - 1 {
                    assert(s.customers[i] == pre.customers[i]);
                }
            }
            assert forall|i: int, j: int| 0 <= i < j < s.customers.len() implies s.customers[i].id < s.customers[j].id by {
                assert(s.customers[i] == pre.customers[i]);
                if j < s.customers.len() - 1 {
                    assert(s.customers[j] == pre.customers[j]);
                }
            }
            assert forall|i: int| 0 <= i < s.orders.len() implies references_exist(s, (#[trigger] s.orders[i]).fields) by {
                let o = s.orders[i].fields;
                assert(references_exist(pre, o));
                if let Some(c) = o.customer_id {
                    let k = choose|k: int| 0 <= k < pre.customers.len() && (#[trigger] pre.customers[k]).id == c;
                    assert(s.customers[k] == pre.customers[k]);
                }
            }
        }
        Ok(id)
    }

    /// Whether some customer is named `name`.
    pub fn has_customer_named(&self, name: &String) -> (r: bool)
        ensures
            r == has_customer_named(self@.customers, name@),
    {
        let mut i: usize = 0;
        while i < self.customers.len()
            invariant
                0 <= i <= self.customers.len(),
                forall|j: int| 0 <= j < i ==> self.customers@[j].name@ != name@,
            decreases self.customers.len() - i,
        {
            if self.customers[i].name == *name {
                return true;
            }
            i = i + 1;
        }
        false
    }

    /// Inserts a customer unless one of that name exists, in which case the
    /// store is left as it is and `Ok(None)` is returned. Used for seed rows,
    /// which a re-run must not duplicate.
    pub fn insert_customer_or_ignore(&mut self, name: String) -> (r: Result<Option<i64>, InsertError>)
        requires
            old(self).wf(),
        ensures
            final(self).wf(),
            r == customer_or_ignore_result(old(self)@, name@),
            r matches Ok(Some(_)) ==> final(self)@ == customer_inserted(old(self)@, name),
            !(r matches Ok(Some(_))) ==> final(self)@ == old(self)@,
    {
        if self.has_customer_named(&name) {
            return Ok(None);
        }
        match self.insert_customer(name) {
            Ok(id) => Ok(Some(id)),
            Err(e) => Err(e),
        }
    }

    /// Inserts an order; one that references a missing customer or product is
    /// refused.
    pub fn insert_order(&mut self, order: NewOrder) -> (r: Result<i64, InsertError>)
        requires
            old(self).wf(),
        ensures
            final(self).wf(),
            r == order_insert_result(old(self)@, order),
            r is Ok ==> final(self)@ == order_inserted(old(self)@, order),
            r is Err ==> final(self)@ == old(self)@,
    {
        let customer_ok = match order.customer_id {
            Some(c) => self.has_customer(c),
            None => true,
        };
        let product_ok = match order.product_id {
            Some(p) => self.has_product(p),
            None => true,
        };
        if !customer_ok || !product_ok {
            return Err(InsertError::ForeignKeyViolation);
        }
        if self.last_order_id == i64::MAX {
            return Err(InsertError::Full);
        }
        let ghost pre = self@;
        let ghost fields = order;
        let id = self.last_order_id + 1;
        self.orders.push(Order { id, fields: order });
        self.last_order_id = id;
        proof {
            let s = self@;
            assert(references_exist(pre, fields));
            assert(references_exist(s, fields));
            assert forall|i: int| 0 <= i < s.orders.len() implies references_exist(s, (#[trigger] s.orders[i]).fields) by {
                if i < s.orders.len() - 1 {
                    assert(s.orders[i] == pre.orders[i]);
                    assert(references_exist(pre, pre.orders[i].fields));
                } else {
                    assert(s.orders[i].fields == fields);
                }
            }
            assert forall|i: int| 0 <= i < s.orders.len() implies 1 <= (#[trigger] s.orders[i]).id <= s.last_order_id by {
                if i < s.orders.len() - 1 {
                    assert(s.orders[i] == pre.orders[i]);
                }
            }
            assert(s =~= order_inserted(pre, fields));
        }
        Ok(id)
    }

    /// The ids of the orders placed by customer `id`, in insertion order.
    pub fn orders_for_customer(&self, id: i64) -> (r: Vec<i64>)
        ensures
            r@ == self@.orders.filter(placed_by(id)).map_values(|o: Order| o.id),
    {
        let ghost pred = placed_by(id);
        let mut r: Vec<i64> = Vec::new();
        let mut i: usize = 0;
        while i < self.orders.len()
            invariant
                0 <= i <= self.orders.len(),
                pred == placed_by(id),
                r@ == self@.orders.take(i as int).filter(pred).map_values(|o: Order| o.id),
            decreases self.orders.len() - i,
        {
            let ghost before = self@.orders.take(i as int).filter(pred);
            proof {
                assert(self@.orders.take(i + 1).drop_last() =~= self@.orders.take(i as int));
                assert(self@.orders.take(i + 1).last() == self@.orders[i as int]);
            }
            let by_customer = match self.orders[i].fields.customer_id {
                Some(c) => c == id,
                None => false,
            };
            if by_customer {
                r.push(self.orders[i].id);
                proof {
                    assert(self@.orders.take(i + 1).filter(pred) == before.push(self@.orders[i as int])) by {
                        reveal(Seq::filter);
                        let t = self@.orders.take(i + 1);
                        assert(t.drop_last() =~= self@.orders.take(i as int));
                        assert(t.last() == self@.orders[i as int]);
                        assert(pred(t.last()));
                    }
                    assert(before.push(self@.orders[i as int]).map_values(|o: Order| o.id)
                        =~= before.map_values(|o: Order| o.id).push(self@.orders[i as int].id));
                }
            } else {
                assert(self@.orders.take(i + 1).filter(pred) == before) by {
                    reveal(Seq::filter);
                    let t = self@.orders.take(i + 1);
                    assert(t.drop_last() =~= self@.orders.take(i as int));
                    assert(t.last() == self@.orders[i as int]);
                    assert(!pred(t.last()));
                }
            }
            i = i + 1;
        }
        assert(self@.orders.take(self.orders.len() as int) =~= self@.orders);
        r
    }

    /// The ids of the orders of product `id`, in insertion order.
    pub fn orders_for_product(&self, id: i64) -> (r: Vec<i64>)
        ensures
            r@ == self@.orders.filter(of_product(id)).map_values(|o: Order| o.id),
    {
        let ghost pred = of_product(id);
        let mut r: Vec<i64> = Vec::new();
        let mut i: usize = 0;
        while i < self.orders.len()
            invariant
                0 <= i <= self.orders.len(),
                pred == of_product(id),
                r@ == self@.orders.take(i as int).filter(pred).map_values(|o: Order| o.id),
            decreases self.orders.len() - i,
        {
            let ghost before = self@.orders.take(i as int).filter(pred);
            proof {
                assert(self@.orders.take(i + 1).drop_last() =~= self@.orders.take(i as int));
                assert(self@.orders.take(i + 1).last() == self@.orders[i as int]);
            }
            let of_id = match self.orders[i].fields.product_id {
                Some(c) => c == id,
                None => false,
            };
            if of_id {
                r.push(self.orders[i].id);
                proof {
                    assert(self@.orders.take(i + 1).filter(pred) == before.push(self@.orders[i as int])) by {
                        reveal(Seq::filter);
                        let t = self@.orders.take(i + 1);
                        assert(t.drop_last() =~= self@.orders.take(i as int));
                        assert(t.last() == self@.orders[i as int]);
                        assert(pred(t.last()));
                    }
                    assert(before.push(self@.orders[i as int]).map_values(|o: Order| o.id)
                        =~= before.map_values(|o: Order| o.id).push(self@.orders[i as int].id));
                }
            } else {
                assert(self@.orders.take(i + 1).filter(pred) == before) by {
                    reveal(Seq::filter);
                    let t = self@.orders.take(i + 1);
                    assert(t.drop_last() =~= self@.orders.take(i as int));
                    assert(t.last() == self@.orders[i as int]);
                    assert(!pred(t.last()));
                }
            }
            i = i + 1;
        }
        assert(self@.orders.take(self.orders.len() as int) =~= self@.orders);
        r
    }
}

/// The orders that customer `id` placed.
pub open spec fn placed_by(id: i64) -> spec_fn(Order) -> bool {
    |o: Order| o.fields.customer_id == Some(id)
}

/// The orders of product `id`.
pub open spec fn of_product(id: i64) -> spec_fn(Order) -> bool {
    |o: Order| o.fields.product_id == Some(id)
}

/// Growing `products` keeps every stored order's references valid.
proof fn lemma_more_products_keep_orders(pre: StoreView, s: StoreView)
    requires
        store_wf(pre),
        s.orders == pre.orders,
        s.customers == pre.customers,
        s.products.len() >= pre.products.len(),
        forall|k: int| 0 <= k < pre.products.len() ==> s.products[k] == pre.products[k],
    ensures
        forall|i: int| 0 <= i < s.orders.len() ==> references_exist(s, (#[trigger] s.orders[i]).fields),
{
    assert forall|i: int| 0 <= i < s.orders.len() implies references_exist(s, (#[trigger] s.orders[i]).fields) by {
        let o = s.orders[i].fields;
        assert(pre.orders[i] == s.orders[i]);
        assert(references_exist(pre, o));
        if let Some(p) = o.product_id {
            let k = choose|k: int| 0 <= k < pre.products.len() && (#[trigger] pre.products[k]).id == p;
            assert(s.products[k] == pre.products[k]);
        }
    }
}

/// Once a product is stored under a name, a second product of the same name
/// is refused.
pub proof fn lemma_product_names_unique(s: StoreView, name: String, again: String)
    requires
        product_insert_result(s, name@) is Ok,
        again@ == name@,
    ensures
        product_insert_result(product_inserted(s, name), again@) == Err::<i64, InsertError>(
            InsertError::UniqueViolation,
        ),
{
    let t = product_inserted(s, name);
    assert(t.products[t.products.len() - 1].name@ == again@);
}

/// Customer names carry no uniqueness rule: two customers of one name are
/// both stored, as long as ids are left.
pub proof fn lemma_customer_names_repeat(s: StoreView, name: String, again: String)
    requires
        s.last_customer_id < i64::MAX - 1,
        again@ == name@,
    ensures
        customer_insert_result(s) is Ok,
        customer_insert_result(customer_inserted(s, name)) is Ok,
        customer_insert_result(customer_inserted(s, name)) != customer_insert_result(s),
        customer_inserted(customer_inserted(s, name), again).customers
            == s.customers.push(Customer { id: (s.last_customer_id + 1) as i64, name }).push(
            Customer { id: (s.last_customer_id + 2) as i64, name: again },
        ),
{
}

/// Seed rows inserted once and then inserted again with `OR IGNORE`: the
/// second insertion of a product or a customer returns `Ok(None)`, so it adds
/// no row and raises no error.
pub proof fn lemma_seed_rerun_ignored(s: StoreView, product: String, customer: String)
    requires
        product_insert_result(s, product@) is Ok,
        customer_insert_result(s) is Ok,
    ensures
        product_or_ignore_result(product_inserted(s, product), product@) == Ok::<Option<i64>, InsertError>(None),
        customer_or_ignore_result(customer_inserted(s, customer), customer@) == Ok::<Option<i64>, InsertError>(None),
{
    let t = product_inserted(s, product);
    assert(t.products[t.products.len() - 1].name@ == product@);
    let u = customer_inserted(s, customer);
    assert(u.customers[u.customers.len() - 1].name@ == customer@);
}

/// An order whose references all exist is stored under a fresh id, as long
/// as ids are left; the other tables are untouched.
pub proof fn lemma_valid_order_stored(s: StoreView, o: NewOrder)
    requires
        store_wf(s),
        references_exist(s, o),
        s.last_order_id < i64::MAX,
    ensures
        order_insert_result(s, o) == Ok::<i64, InsertError>((s.last_order_id + 1) as i64),
        order_inserted(s, o).orders == s.orders.push(Order { id: (s.last_order_id + 1) as i64, fields: o }),
        forall|i: int| 0 <= i < s.orders.len() ==> s.orders[i].id != s.last_order_id + 1,
        order_inserted(s, o).products == s.products,
        order_inserted(s, o).customers == s.customers,
{
}

} // verus!
