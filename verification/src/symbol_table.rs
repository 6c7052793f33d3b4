//! What the auditor knows: registered assets, the type of each variable, and
//! the signature of each transaction.
use crate::table::Table;
use vstd::prelude::*;
use vstd::string::*;

verus! {

#[derive(Debug, Clone, Copy)]
pub struct AssetInfo {
    pub precision: u32,
}

/// The parameters of a transaction, each with its name and its required type.
#[derive(Debug)]
pub struct TransactionSignature {
    pub expected_parameters: Vec<(String, String)>,
}

/// The parameters' names and types as character sequences.
pub open spec fn signature_view(ps: Seq<(String, String)>) -> Seq<(Seq<char>, Seq<char>)> {
    crate::ast::params_view(ps)
}

/// The type names of a table of types.
pub open spec fn types_of(m: Map<Seq<char>, String>) -> Map<Seq<char>, Seq<char>> {
    m.map_values(|t: String| t@)
}

/// The symbol table as maps from names.
pub struct SymbolView {
    pub assets: Map<Seq<char>, u32>,
    pub variables: Map<Seq<char>, Seq<char>>,
    pub transactions: Map<Seq<char>, Seq<(Seq<char>, Seq<char>)>>,
}

#[derive(Debug)]
pub struct SymbolTable {
    pub assets: Table<AssetInfo>,
    pub variables: Table<String>,
    pub transactions: Table<TransactionSignature>,
}

impl View for SymbolTable {
    type V = SymbolView;

    open spec fn view(&self) -> SymbolView {
        SymbolView {
            assets: self.assets@.map_values(|a: AssetInfo| a.precision),
            variables: types_of(self.variables@),
            transactions: self.transactions@.map_values(
                |t: TransactionSignature| signature_view(t.expected_parameters@),
            ),
        }
    }
}

impl SymbolTable {
    /// A table with nothing registered.
    pub fn new() -> (r: SymbolTable)
        ensures
            r@.assets == Map::<Seq<char>, u32>::empty(),
            r@.variables == Map::<Seq<char>, Seq<char>>::empty(),
            r@.transactions == Map::<Seq<char>, Seq<(Seq<char>, Seq<char>)>>::empty(),
    {
        let r = SymbolTable { assets: Table::new(), variables: Table::new(), transactions: Table::new() };
        assert(r@.assets =~= Map::<Seq<char>, u32>::empty());
        assert(r@.variables =~= Map::<Seq<char>, Seq<char>>::empty());
        assert(r@.transactions =~= Map::<Seq<char>, Seq<(Seq<char>, Seq<char>)>>::empty());
        r
    }

    /// Registers an asset with its precision, replacing an earlier registration.
    pub fn define_asset(&mut self, ticker: String, precision: u32)
        ensures
            final(self)@.assets == old(self)@.assets.insert(ticker@, precision),
            final(self)@.variables == old(self)@.variables,
            final(self)@.transactions == old(self)@.transactions,
    {
        let ghost t = ticker@;
        self.assets.insert(ticker, AssetInfo { precision });
        assert(self@.assets =~= old(self)@.assets.insert(t, precision));
    }

    /// The registration of an asset.
    pub fn lookup_asset(&self, ticker: &str) -> (r: Option<&AssetInfo>)
        ensures
            match r {
                Some(a) => self@.assets.contains_key(ticker@) && self@.assets[ticker@] == a.precision,
                None => !self@.assets.contains_key(ticker@),
            },
    {
        let key = String::from_str(ticker);
        self.assets.get(&key)
    }

    /// Records the type of a variable, replacing an earlier one.
    pub fn define_variable(&mut self, name: String, exact_type: String)
        ensures
            final(self)@.variables == old(self)@.variables.insert(name@, exact_type@),
            final(self)@.assets == old(self)@.assets,
            final(self)@.transactions == old(self)@.transactions,
    {
        let ghost n = name@;
        let ghost t = exact_type@;
        self.variables.insert(name, exact_type);
        assert(self@.variables =~= old(self)@.variables.insert(n, t));
    }

    /// The type of a variable.
    pub fn lookup_variable(&self, name: &str) -> (r: Option<&String>)
        ensures
            match r {
                Some(t) => self@.variables.contains_key(name@) && self@.variables[name@] == t@,
                None => !self@.variables.contains_key(name@),
            },
    {
        let key = String::from_str(name);
        self.variables.get(&key)
    }

    /// Records the signature of a transaction, replacing an earlier one.
    pub fn define_transaction(&mut self, name: String, params: Vec<(String, String)>)
        ensures
            final(self)@.transactions == old(self)@.transactions.insert(name@, signature_view(params@)),
            final(self)@.assets == old(self)@.assets,
            final(self)@.variables == old(self)@.variables,
    {
        let ghost n = name@;
        let ghost p = signature_view(params@);
        self.transactions.insert(name, TransactionSignature { expected_parameters: params });
        assert(self@.transactions =~= old(self)@.transactions.insert(n, p));
    }

    /// The signature of a transaction.
    pub fn lookup_transaction(&self, name: &str) -> (r: Option<&TransactionSignature>)
        ensures
            match r {
                Some(t) => self@.transactions.contains_key(name@) && self@.transactions[name@]
                    == signature_view(t.expected_parameters@),
                None => !self@.transactions.contains_key(name@),
            },
    {
        let key = String::from_str(name);
        self.transactions.get(&key)
    }
}

} // verus!
