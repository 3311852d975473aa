use vstd::prelude::*;
use crate::activity;
use crate::callback;
use crate::cublas;
use crate::cudnn;

verus! {

/// The records of a profiling trace, by source.
pub struct Document {
    pub activities: Vec<activity::Record>,
    pub apis: Vec<callback::Record>,
    pub cudnn_calls: Vec<cudnn::Record>,
    pub cublas_calls: Vec<cublas::Record>,
}

impl Document {
    /// A document with no record.
    pub fn new() -> (d: Document)
        ensures
            d.activities@ == Seq::<activity::Record>::empty(),
            d.apis@ == Seq::<callback::Record>::empty(),
            d.cudnn_calls@ == Seq::<cudnn::Record>::empty(),
            d.cublas_calls@ == Seq::<cublas::Record>::empty(),
    {
        Document { activities: Vec::new(), apis: Vec::new(), cudnn_calls: Vec::new(), cublas_calls: Vec::new() }
    }

    pub fn activities(&self) -> (r: &Vec<activity::Record>)
        ensures
            r == &self.activities,
    {
        &self.activities
    }

    pub fn activities_mut(&mut self) -> (r: &mut Vec<activity::Record>)
        ensures
            *r == old(self).activities,
            final(self).activities == *final(r),
            final(self).apis == old(self).apis,
            final(self).cudnn_calls == old(self).cudnn_calls,
            final(self).cublas_calls == old(self).cublas_calls,
    {
        &mut self.activities
    }

    pub fn apis(&self) -> (r: &Vec<callback::Record>)
        ensures
            r == &self.apis,
    {
        &self.apis
    }

    pub fn apis_mut(&mut self) -> (r: &mut Vec<callback::Record>)
        ensures
            *r == old(self).apis,
            final(self).apis == *final(r),
            final(self).activities == old(self).activities,
            final(self).cudnn_calls == old(self).cudnn_calls,
            final(self).cublas_calls == old(self).cublas_calls,
    {
        &mut self.apis
    }

    /// Appends an activity record.
    pub fn add_activity(&mut self, r: activity::Record)
        ensures
            final(self).activities@ == old(self).activities@.push(r),
            final(self).apis == old(self).apis,
            final(self).cudnn_calls == old(self).cudnn_calls,
            final(self).cublas_calls == old(self).cublas_calls,
    {
        self.activities.push(r);
    }

    /// Appends a runtime call record.
    pub fn add_api(&mut self, r: callback::Record)
        ensures
            final(self).apis@ == old(self).apis@.push(r),
            final(self).activities == old(self).activities,
            final(self).cudnn_calls == old(self).cudnn_calls,
            final(self).cublas_calls == old(self).cublas_calls,
    {
        self.apis.push(r);
    }

    /// Appends a cuDNN call record.
    pub fn add_cudnn(&mut self, r: cudnn::Record)
        ensures
            final(self).cudnn_calls@ == old(self).cudnn_calls@.push(r),
            final(self).activities == old(self).activities,
            final(self).apis == old(self).apis,
            final(self).cublas_calls == old(self).cublas_calls,
    {
        self.cudnn_calls.push(r);
    }

    /// Appends a cuBLAS call record.
    pub fn add_cublas(&mut self, r: cublas::Record)
        ensures
            final(self).cublas_calls@ == old(self).cublas_calls@.push(r),
            final(self).activities == old(self).activities,
            final(self).apis == old(self).apis,
            final(self).cudnn_calls == old(self).cudnn_calls,
    {
        self.cublas_calls.push(r);
    }

    pub fn cudnn_calls(&self) -> (r: &Vec<cudnn::Record>)
        ensures
            r == &self.cudnn_calls,
    {
        &self.cudnn_calls
    }
}

/// Where a record of a trace comes from, by its `hprof_kind`.
#[derive(PartialEq, Eq, Structural, Clone, Copy, Debug)]
pub enum RecordSource {
    CuptiCallback,
    CuptiActivity,
    Cudnn,
    Cublas,
    Nccl,
    Unknown,
}

/// The source named by an `hprof_kind`.
pub open spec fn record_source_of(kind: Seq<char>) -> RecordSource {
    if kind == "cupti_callback"@ {
        RecordSource::CuptiCallback
    } else if kind == "cupti_activity"@ {
        RecordSource::CuptiActivity
    } else if kind == "cudnn"@ {
        RecordSource::Cudnn
    } else if kind == "cublas"@ {
        RecordSource::Cublas
    } else if kind == "nccl"@ {
        RecordSource::Nccl
    } else {
        RecordSource::Unknown
    }
}

/// Tells which kind of record an `hprof_kind` announces, so that the record is read as
/// a runtime call, an activity, a cuDNN, cuBLAS or NCCL call, or not at all.
pub fn record_source(kind: &str) -> (r: RecordSource)
    ensures
        r == record_source_of(kind@),
{
    let k = kind.to_owned();
    if k == "cupti_callback".to_owned() {
        RecordSource::CuptiCallback
    } else if k == "cupti_activity".to_owned() {
        RecordSource::CuptiActivity
    } else if k == "cudnn".to_owned() {
        RecordSource::Cudnn
    } else if k == "cublas".to_owned() {
        RecordSource::Cublas
    } else if k == "nccl".to_owned() {
        RecordSource::Nccl
    } else {
        RecordSource::Unknown
    }
}

} // verus!
