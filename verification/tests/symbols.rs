use xiyi_compiler::symbol_pool::{Symbol, SymbolHasher, SymbolPool};
use xiyi_compiler::token::{Token, PREDEFINED_SYMBOL_COUNT};

#[test]
fn interned_names_resolve() {
    let mut pool = SymbolPool::new();
    let a = pool.intern("alpha");
    let b = pool.intern("beta");
    assert_ne!(a, b);
    assert_eq!(pool.resolve(a), "alpha");
    assert_eq!(pool.resolve(b), "beta");
}

#[test]
fn interning_again_gives_the_same_symbol() {
    let mut pool = SymbolPool::new();
    let before = pool.len();
    let a = pool.intern("alpha");
    assert_eq!(pool.len(), before + 1);
    assert_eq!(pool.intern("alpha"), a);
    assert_eq!(pool.len(), before + 1);
}

#[test]
fn symbols_keep_their_names() {
    let mut pool = SymbolPool::new();
    let a = pool.intern("alpha");
    for i in 0..500 {
        let name = format!("name{}", i);
        let s = pool.intern(&name);
        assert_eq!(pool.resolve(s), name);
    }
    assert_eq!(pool.resolve(a), "alpha");
    assert_eq!(pool.get("alpha"), Some(a));
    assert_eq!(pool.get("name499").map(|s| s.0), Some(a.0 + 500));
}

#[test]
fn unknown_names_have_no_symbol() {
    let pool = SymbolPool::new();
    assert_eq!(pool.get("alpha"), None);
    assert_eq!(pool.get(""), None);
}

#[test]
fn keywords_are_predefined() {
    let mut pool = SymbolPool::new();
    assert_eq!(pool.len(), PREDEFINED_SYMBOL_COUNT);
    let f = pool.get("fn").unwrap();
    assert!(f.is_predefined());
    assert_eq!(f.into_token(), Token::Fn);
    assert_eq!(pool.get("while").unwrap().into_token(), Token::While);
    assert_eq!(pool.get("where").unwrap().into_token(), Token::Where);
    let x = pool.intern("x");
    assert!(!x.is_predefined());
    assert_eq!(x.into_token(), Token::Ident(x));
    assert_eq!(x, Symbol(PREDEFINED_SYMBOL_COUNT));
}

#[test]
fn predefined_names_are_distinct() {
    let pool = SymbolPool::new();
    for i in 0..PREDEFINED_SYMBOL_COUNT {
        let name = pool.resolve(Symbol(i));
        assert_eq!(pool.get(name), Some(Symbol(i)));
    }
}

fn hash(bytes: &[u8]) -> u64 {
    let mut hasher = SymbolHasher::default();
    hasher.write(bytes);
    hasher.finish()
}

#[test]
fn hashes_are_fixed() {
    assert_eq!(SymbolHasher::default().finish(), 0x9e37_79b9_7f4a_7c15);
    assert_eq!(hash(b""), 0x9e37_79b9_7f4a_7c15);
    assert_eq!(hash(b"fn"), 0xc3e9_74f1_1b7c_d215);
    assert_eq!(hash(b"hello, world"), 0xdd01_267b_73dd_2255);
}

#[test]
fn integers_hash_as_words() {
    let mut a = SymbolHasher::default();
    a.write_u8(7);
    assert_eq!(a.finish(), 0xbedb_3a24_ae4a_1ac4);
    let mut b = SymbolHasher::default();
    b.write_u16(7);
    let mut c = SymbolHasher::default();
    c.write_u32(7);
    let mut d = SymbolHasher::default();
    d.write_u64(7);
    let mut e = SymbolHasher::default();
    e.write_usize(7);
    assert_eq!(b.finish(), a.finish());
    assert_eq!(c.finish(), a.finish());
    assert_eq!(d.finish(), a.finish());
    assert_eq!(e.finish(), a.finish());
}
