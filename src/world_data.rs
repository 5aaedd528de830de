//! The collections a world is made of.
use crate::company::{Company, CompanyHandle};
use crate::consumer::Consumer;
use crate::producer::Producer;
use vstd::prelude::*;

verus! {

pub struct CompanyData {
    pub companies: Vec<Company>,
}

impl CompanyData {
    pub fn new() -> (d: CompanyData)
        ensures
            d.companies@.len() == 0,
    {
        CompanyData { companies: Vec::new() }
    }

    pub fn get_company_by_handle(&self, company_handle: CompanyHandle) -> (r: Option<&Company>)
        ensures
            company_handle < self.companies@.len() ==> r == Some(&self.companies@[company_handle as int]),
            company_handle >= self.companies@.len() ==> r is None,
    {
        if company_handle < self.companies.len() {
            Some(&self.companies[company_handle])
        } else {
            None
        }
    }

    pub fn get_company_name_by_handle(&self, company_handle: CompanyHandle) -> (r: Option<&str>)
        ensures
            company_handle < self.companies@.len() ==> r is Some && r->0@
                == self.companies@[company_handle as int].name@,
            company_handle >= self.companies@.len() ==> r is None,
    {
        if company_handle < self.companies.len() {
            Some(self.companies[company_handle].name.as_str())
        } else {
            None
        }
    }
}

/// Price of one processor, for buying and selling alike.
pub struct ProcessorData {
    pub processor_price: u64,
}

impl ProcessorData {
    pub fn new() -> (d: ProcessorData)
        ensures
            d.processor_price == 1000,
    {
        ProcessorData { processor_price: 1000 }
    }
}

pub struct ProducerData {
    pub producers: Vec<Producer>,
}

impl ProducerData {
    pub fn new() -> (d: ProducerData)
        ensures
            d.producers@.len() == 0,
    {
        ProducerData { producers: Vec::new() }
    }
}

pub struct ConsumerData {
    pub consumers: Vec<Consumer>,
}

impl ConsumerData {
    pub fn new() -> (d: ConsumerData)
        ensures
            d.consumers@.len() == 0,
    {
        ConsumerData { consumers: Vec::new() }
    }
}

} // verus!
