//! The catalog: the products on offer and how many of each are left.

use crate::ambient::fresh_identifier;
use crate::error::PurchaseError;
use vstd::prelude::*;

verus! {

/// One entry of the catalog.
///
/// `price` counts hundredths of the currency unit.
#[derive(Debug, PartialEq, Eq)]
pub struct Product {
    pub id: String,
    pub name: String,
    pub description: String,
    pub price: u64,
    pub stock: u32,
    pub image_url: String,
}

/// What a catalog entry holds, as mathematical values.
pub ghost struct ProductView {
    pub id: Seq<char>,
    pub name: Seq<char>,
    pub description: Seq<char>,
    pub price: nat,
    pub stock: nat,
    pub image_url: Seq<char>,
}

impl View for Product {
    type V = ProductView;

    open spec fn view(&self) -> ProductView {
        ProductView {
            id: self.id@,
            name: self.name@,
            description: self.description@,
            price: self.price as nat,
            stock: self.stock as nat,
            image_url: self.image_url@,
        }
    }
}

impl Clone for Product {
    fn clone(&self) -> (copy: Self)
        ensures
            copy == *self,
    {
        Product {
            id: self.id.clone(),
            name: self.name.clone(),
            description: self.description.clone(),
            price: self.price,
            stock: self.stock,
            image_url: self.image_url.clone(),
        }
    }
}

/// The views of a sequence of products, in the same order.
pub open spec fn product_views(products: Seq<Product>) -> Seq<ProductView> {
    products.map_values(|p: Product| p@)
}

/// The number of products a fresh catalog holds.
pub const SEED_COUNT: usize = 6;

/// The products of a fresh catalog, in order, each without an identifier.
pub open spec fn seed_products() -> Seq<ProductView> {
    seq![
        ProductView {
            id: Seq::<char>::empty(),
            name: "Blockchain Developer Course"@,
            description: "Complete guide to blockchain development with Rust and Solana"@,
            price: 50,
            stock: 100,
            image_url: "https://images.unsplash.com/photo-1639762681485-074b7f938ba0?w=400"@,
        },
        ProductView {
            id: Seq::<char>::empty(),
            name: "NFT Art Collection"@,
            description: "Exclusive digital art collection on the blockchain"@,
            price: 120,
            stock: 50,
            image_url: "https://images.unsplash.com/photo-1620641788421-7a1c342ea42e?w=400"@,
        },
        ProductView {
            id: Seq::<char>::empty(),
            name: "Smart Contract Template"@,
            description: "Production-ready smart contract templates for e-commerce"@,
            price: 80,
            stock: 75,
            image_url: "https://images.unsplash.com/photo-1551288049-bebda4e38f71?w=400"@,
        },
        ProductView {
            id: Seq::<char>::empty(),
            name: "Web3 Starter Kit"@,
            description: "Complete Web3 development toolkit with React integration"@,
            price: 150,
            stock: 30,
            image_url: "https://images.unsplash.com/photo-1633356122544-f134324a6cee?w=400"@,
        },
        ProductView {
            id: Seq::<char>::empty(),
            name: "Crypto Wallet Security Guide"@,
            description: "Best practices for securing cryptocurrency wallets"@,
            price: 30,
            stock: 200,
            image_url: "https://images.unsplash.com/photo-1563986768609-322da13575f3?w=400"@,
        },
        ProductView {
            id: Seq::<char>::empty(),
            name: "DeFi Protocol Analysis"@,
            description: "In-depth analysis of popular DeFi protocols and strategies"@,
            price: 200,
            stock: 25,
            image_url: "https://images.unsplash.com/photo-1621761191319-c6fb62004040?w=400"@,
        },
    ]
}

/// The seed product at `position` under the identifier `id`, or `None` when
/// `position` is past the last seed product.
pub fn seed_product(position: usize, id: String) -> (product: Option<Product>)
    ensures
        match product {
            Some(p) => position < SEED_COUNT && p@ == (ProductView {
                id: id@,
                ..seed_products()[position as int]
            }),
            None => position >= SEED_COUNT,
        },
{
    if position == 0 {
        Some(
            Product {
                id,
                name: "Blockchain Developer Course".to_owned(),
                description: "Complete guide to blockchain development with Rust and Solana".to_owned(),
                price: 50,
                stock: 100,
                image_url: "https://images.unsplash.com/photo-1639762681485-074b7f938ba0?w=400".to_owned(),
            },
        )
    } else if position == 1 {
        Some(
            Product {
                id,
                name: "NFT Art Collection".to_owned(),
                description: "Exclusive digital art collection on the blockchain".to_owned(),
                price: 120,
                stock: 50,
                image_url: "https://images.unsplash.com/photo-1620641788421-7a1c342ea42e?w=400".to_owned(),
            },
        )
    } else if position == 2 {
        Some(
            Product {
                id,
                name: "Smart Contract Template".to_owned(),
                description: "Production-ready smart contract templates for e-commerce".to_owned(),
                price: 80,
                stock: 75,
                image_url: "https://images.unsplash.com/photo-1551288049-bebda4e38f71?w=400".to_owned(),
            },
        )
    } else if position == 3 {
        Some(
            Product {
                id,
                name: "Web3 Starter Kit".to_owned(),
                description: "Complete Web3 development toolkit with React integration".to_owned(),
                price: 150,
                stock: 30,
                image_url: "https://images.unsplash.com/photo-1633356122544-f134324a6cee?w=400".to_owned(),
            },
        )
    } else if position == 4 {
        Some(
            Product {
                id,
                name: "Crypto Wallet Security Guide".to_owned(),
                description: "Best practices for securing cryptocurrency wallets".to_owned(),
                price: 30,
                stock: 200,
                image_url: "https://images.unsplash.com/photo-1563986768609-322da13575f3?w=400".to_owned(),
            },
        )
    } else if position == 5 {
        Some(
            Product {
                id,
                name: "DeFi Protocol Analysis".to_owned(),
                description: "In-depth analysis of popular DeFi protocols and strategies".to_owned(),
                price: 200,
                stock: 25,
                image_url: "https://images.unsplash.com/photo-1621761191319-c6fb62004040?w=400".to_owned(),
            },
        )
    } else {
        None
    }
}

/// A fresh catalog: the seed products in order, each under a new identifier
/// of 36 characters.
pub fn init_products() -> (products: Vec<Product>)
    ensures
        products@.len() == SEED_COUNT,
        forall|i: int|
            0 <= i < SEED_COUNT ==> (#[trigger] products@[i])@ == (ProductView {
                id: products@[i]@.id,
                ..seed_products()[i]
            }) && products@[i]@.id.len() == 36,
{
    let mut products: Vec<Product> = Vec::new();
    let mut position: usize = 0;
    while position < SEED_COUNT
        invariant
            position <= SEED_COUNT,
            products@.len() == position,
            forall|i: int|
                0 <= i < position ==> (#[trigger] products@[i])@ == (ProductView {
                    id: products@[i]@.id,
                    ..seed_products()[i]
                }) && products@[i]@.id.len() == 36,
        decreases SEED_COUNT - position,
    {
        match seed_product(position, fresh_identifier()) {
            Some(product) => {
                products.push(product);
            },
            None => {},
        }
        position += 1;
    }
    products
}

/// A copy of the catalog, entry by entry in the same order.
pub fn get_products(products: &Vec<Product>) -> (snapshot: Vec<Product>)
    ensures
        snapshot@ == products@,
{
    let mut snapshot: Vec<Product> = Vec::new();
    let mut i: usize = 0;
    while i < products.len()
        invariant
            i <= products@.len(),
            snapshot@ == products@.take(i as int),
        decreases products@.len() - i,
    {
        snapshot.push(products[i].clone());
        assert(products@.take(i + 1) =~= products@.take(i as int).push(products@[i as int]));
        i += 1;
    }
    assert(products@.take(i as int) =~= products@);
    snapshot
}

/// The position of the first product whose identifier is `id`, if there is
/// one.
pub open spec fn position_of(products: Seq<ProductView>, id: Seq<char>) -> Option<int>
    decreases products.len(),
{
    if products.len() == 0 {
        None
    } else if products[0].id == id {
        Some(0)
    } else {
        match position_of(products.drop_first(), id) {
            Some(i) => Some(i + 1),
            None => None,
        }
    }
}

/// `position_of` finds a product with the identifier, and the first such.
pub proof fn lemma_position_of(products: Seq<ProductView>, id: Seq<char>)
    ensures
        match position_of(products, id) {
            Some(i) => {
                &&& 0 <= i < products.len()
                &&& products[i].id == id
                &&& forall|j: int| 0 <= j < i ==> products[j].id != id
            },
            None => forall|j: int| 0 <= j < products.len() ==> products[j].id != id,
        },
    decreases products.len(),
{
    if products.len() > 0 && products[0].id != id {
        let rest = products.drop_first();
        lemma_position_of(rest, id);
        match position_of(rest, id) {
            Some(i) => {
                assert forall|j: int| 0 <= j < i + 1 implies products[j].id != id by {
                    if j > 0 {
                        assert(products[j] == rest[j - 1]);
                    }
                }
            },
            None => {
                assert forall|j: int| 0 <= j < products.len() implies products[j].id != id by {
                    if j > 0 {
                        assert(products[j] == rest[j - 1]);
                    }
                }
            },
        }
    }
}

/// Looks for the first product whose identifier is `product_id` and returns
/// its position.
pub fn find_product(products: &Vec<Product>, product_id: &String) -> (found: Option<usize>)
    ensures
        match found {
            Some(i) => position_of(product_views(products@), product_id@) == Some(i as int) && i
                < products@.len(),
            None => position_of(product_views(products@), product_id@) is None,
        },
{
    let ghost views = product_views(products@);
    let mut i: usize = 0;
    assert(views.skip(0) =~= views);
    while i < products.len()
        invariant
            i <= products@.len(),
            views == product_views(products@),
            position_of(views, product_id@) == match position_of(
                views.skip(i as int),
                product_id@,
            ) {
                Some(k) => Some(k + i),
                None => None,
            },
        decreases products@.len() - i,
    {
        proof {
            assert(views.skip(i as int)[0] == products@[i as int]@);
            assert(views.skip(i as int).drop_first() =~= views.skip(i + 1));
        }
        if products[i].id == *product_id {
            return Some(i);
        }
        i += 1;
    }
    assert(views.skip(i as int).len() == 0);
    None
}

/// Takes `quantity` items out of the stock of `product`.
///
/// Fails, and leaves the product as it is, exactly when fewer than `quantity`
/// items are left.
pub fn decrement_stock(product: &mut Product, quantity: u32) -> (outcome: Result<
    (),
    PurchaseError,
>)
    ensures
        match outcome {
            Ok(_) => quantity <= old(product).stock && *final(product) == (Product {
                stock: (old(product).stock - quantity) as u32,
                ..*old(product)
            }),
            Err(e) => e == PurchaseError::InsufficientStock && quantity > old(product).stock
                && *final(product) == *old(product),
        },
{
    if product.stock < quantity {
        return Err(PurchaseError::InsufficientStock);
    }
    product.stock = product.stock - quantity;
    Ok(())
}

} // verus!
