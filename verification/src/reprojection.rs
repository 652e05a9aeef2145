//! Reprojecting vector data into another spatial reference.

use crate::operator::{InputRange, Operator, OperatorError};
use vstd::prelude::*;
use vstd::string::*;

verus! {

/// Who defines a spatial reference.
#[derive(Debug, Clone, Copy, PartialEq, Eq, Structural)]
pub enum SpatialReferenceAuthority {
    Epsg,
    SrOrg,
    Iau2000,
    Esri,
}

/// A spatial reference.
#[derive(Debug, Clone, Copy, PartialEq, Eq, Structural)]
pub struct SpatialReference {
    pub authority: SpatialReferenceAuthority,
    pub code: u32,
}

/// A spatial reference, if there is one.
#[derive(Debug, Clone, Copy, PartialEq, Eq, Structural)]
pub enum SpatialReferenceOption {
    SpatialReference(SpatialReference),
    Unreferenced,
}

/// The kind of a feature.
#[derive(Debug, Clone, Copy, PartialEq, Eq, Structural)]
pub enum VectorDataType {
    Data,
    MultiPoint,
    MultiLineString,
    MultiPolygon,
}

/// A column of feature data.
#[derive(Debug)]
pub struct Column {
    pub name: String,
    pub data_type: String,
}

impl Clone for Column {
    fn clone(&self) -> (r: Self)
        ensures
            r == *self,
    {
        Column { name: self.name.clone(), data_type: self.data_type.clone() }
    }
}

/// What vector data consist of.
#[derive(Debug)]
pub struct VectorResultDescriptor {
    pub spatial_reference: SpatialReferenceOption,
    pub data_type: VectorDataType,
    pub columns: Vec<Column>,
}

/// The parameters of a reprojection.
#[derive(Debug, Clone, Copy, PartialEq, Eq, Structural)]
pub struct ReprojectionParams {
    pub target_spatial_reference: SpatialReference,
}

/// Reprojects vector data into another spatial reference.
#[derive(Debug)]
pub struct Reprojection<R, V> {
    pub operator: Operator<ReprojectionParams, R, V>,
}

/// A reprojection whose inputs are as they must be.
#[derive(Debug)]
pub struct CheckedReprojection<V> {
    pub params: ReprojectionParams,
    pub vector_source: V,
}

impl<R, V> Reprojection<R, V> {
    /// Checks the inputs: a reprojection takes one vector source and nothing else.
    pub fn initialize(self) -> (r: Result<CheckedReprojection<V>, OperatorError>)
        ensures
            match r {
                Ok(checked) => {
                    &&& self.operator.vector_sources@ == seq![checked.vector_source]
                    &&& self.operator.raster_sources@.len() == 0
                    &&& checked.params == self.operator.params
                },
                Err(OperatorError::InvalidNumberOfVectorInputs { expected, found }) => {
                    &&& self.operator.vector_sources@.len() != 1
                    &&& expected == (InputRange { start: 1, end: 2 })
                    &&& found == self.operator.vector_sources@.len()
                },
                Err(OperatorError::InvalidNumberOfRasterInputs { expected, found }) => {
                    &&& self.operator.vector_sources@.len() == 1
                    &&& self.operator.raster_sources@.len() > 0
                    &&& expected == (InputRange { start: 0, end: 1 })
                    &&& found == self.operator.raster_sources@.len()
                },
            },
    {
        let Operator { params, raster_sources, vector_sources } = self.operator;
        if vector_sources.len() != 1 {
            return Err(
                OperatorError::InvalidNumberOfVectorInputs {
                    expected: InputRange { start: 1, end: 2 },
                    found: vector_sources.len(),
                },
            );
        }
        if raster_sources.len() != 0 {
            return Err(
                OperatorError::InvalidNumberOfRasterInputs {
                    expected: InputRange { start: 0, end: 1 },
                    found: raster_sources.len(),
                },
            );
        }
        let ghost sources = vector_sources@;
        let mut vector_sources = vector_sources;
        let vector_source = vector_sources.pop().unwrap();
        assert(sources =~= seq![vector_source]);
        Ok(CheckedReprojection { params, vector_source })
    }
}

/// A reprojection with what comes out of it, and the spatial references that it goes from and to.
#[derive(Debug)]
pub struct InitializedReprojection {
    pub result_descriptor: VectorResultDescriptor,
    pub state: (SpatialReference, SpatialReference),
}

impl<V> CheckedReprojection<V> {
    /// The reprojection of a source that is described by `in_desc`.
    pub fn with_descriptor(&self, in_desc: &VectorResultDescriptor) -> (r: InitializedReprojection)
        requires
            in_desc.spatial_reference is SpatialReference,
        ensures
            r.result_descriptor.spatial_reference == SpatialReferenceOption::SpatialReference(
                self.params.target_spatial_reference,
            ),
            r.result_descriptor.data_type == in_desc.data_type,
            r.result_descriptor.columns@ == in_desc.columns@,
            SpatialReferenceOption::SpatialReference(r.state.0) == in_desc.spatial_reference,
            r.state.1 == self.params.target_spatial_reference,
    {
        let target = self.params.target_spatial_reference;
        let from = match in_desc.spatial_reference {
            SpatialReferenceOption::SpatialReference(from) => from,
            SpatialReferenceOption::Unreferenced => target,
        };
        let columns = in_desc.columns.clone();
        assert(columns@ =~= in_desc.columns@);
        InitializedReprojection {
            result_descriptor: VectorResultDescriptor {
                spatial_reference: SpatialReferenceOption::SpatialReference(target),
                data_type: in_desc.data_type,
                columns,
            },
            state: (from, target),
        }
    }
}

/// A query for a bounding box, a time interval and a resolution.
#[derive(Debug, Clone, Copy)]
pub struct QueryRectangle<B, T, S> {
    pub bbox: B,
    pub time_interval: T,
    pub spatial_resolution: S,
}

/// Takes a query back from the spatial reference of the result to that of the source. The
/// function `project` projects a bounding box from its first reference to its second one. The
/// resolution stays as it is.
pub fn query_rewrite_fn<B, T, S, F: Fn(SpatialReference, SpatialReference, B) -> B>(
    query: QueryRectangle<B, T, S>,
    from: SpatialReference,
    to: SpatialReference,
    project: &F,
) -> (r: QueryRectangle<B, T, S>)
    requires
        call_requires(*project, (to, from, query.bbox)),
    ensures
        call_ensures(*project, (to, from, query.bbox), r.bbox),
        r.time_interval == query.time_interval,
        r.spatial_resolution == query.spatial_resolution,
{
    let QueryRectangle { bbox, time_interval, spatial_resolution } = query;
    QueryRectangle { bbox: project(to, from, bbox), time_interval, spatial_resolution }
}

/// Passes rewritten queries on to a source and its results back as they are.
#[derive(Debug)]
pub struct MapQueryProcessor<Q> {
    pub source: Q,
    pub from: SpatialReference,
    pub to: SpatialReference,
}

/// Passes rewritten queries on to a source and its results back reprojected.
#[derive(Debug)]
pub struct ReprojectionProcessor<Q> {
    pub source: Q,
    pub from: SpatialReference,
    pub to: SpatialReference,
}

impl<Q> ReprojectionProcessor<Q> {
    /// A processor that reprojects the results of a source.
    pub fn new(source: Q, from: SpatialReference, to: SpatialReference) -> (r: Self)
        ensures
            r.source == source,
            r.from == from,
            r.to == to,
    {
        Self { source, from, to }
    }

    /// The query for the source.
    pub fn rewrite_query<B, T, S, F: Fn(SpatialReference, SpatialReference, B) -> B>(
        &self,
        query: QueryRectangle<B, T, S>,
        project: &F,
    ) -> (r: QueryRectangle<B, T, S>)
        requires
            call_requires(*project, (self.to, self.from, query.bbox)),
        ensures
            call_ensures(*project, (self.to, self.from, query.bbox), r.bbox),
            r.time_interval == query.time_interval,
            r.spatial_resolution == query.spatial_resolution,
    {
        query_rewrite_fn(query, self.from, self.to, project)
    }

    /// What is passed back for a result of the source. The function `project` projects a
    /// collection from its first reference to its second one. An error is passed back as it is.
    pub fn map_result<C, D, E, F: Fn(SpatialReference, SpatialReference, C) -> D>(
        &self,
        result: Result<C, E>,
        project: &F,
    ) -> (r: Result<D, E>)
        requires
            result matches Ok(collection) ==> call_requires(
                *project,
                (self.from, self.to, collection),
            ),
        ensures
            match result {
                Ok(collection) => r matches Ok(projected) && call_ensures(
                    *project,
                    (self.from, self.to, collection),
                    projected,
                ),
                Err(e) => r == Err::<D, E>(e),
            },
    {
        match result {
            Ok(collection) => Ok(project(self.from, self.to, collection)),
            Err(e) => Err(e),
        }
    }
}

/// A processor for each kind of features.
#[derive(Debug)]
pub enum TypedVectorQueryProcessor<D, P, L, G> {
    Data(D),
    MultiPoint(P),
    MultiLineString(L),
    MultiPolygon(G),
}

impl InitializedReprojection {
    /// The processor for a source: without geometries only the query is reprojected.
    pub fn query_processor<D, P, L, G>(
        &self,
        source: TypedVectorQueryProcessor<D, P, L, G>,
    ) -> (r: TypedVectorQueryProcessor<
        MapQueryProcessor<D>,
        ReprojectionProcessor<P>,
        ReprojectionProcessor<L>,
        ReprojectionProcessor<G>,
    >)
        ensures
            r == match source {
                TypedVectorQueryProcessor::Data(source) => TypedVectorQueryProcessor::Data(
                    MapQueryProcessor { source, from: self.state.0, to: self.state.1 },
                ),
                TypedVectorQueryProcessor::MultiPoint(source) => {
                    TypedVectorQueryProcessor::MultiPoint(
                        ReprojectionProcessor { source, from: self.state.0, to: self.state.1 },
                    )
                },
                TypedVectorQueryProcessor::MultiLineString(source) => {
                    TypedVectorQueryProcessor::MultiLineString(
                        ReprojectionProcessor { source, from: self.state.0, to: self.state.1 },
                    )
                },
                TypedVectorQueryProcessor::MultiPolygon(source) => {
                    TypedVectorQueryProcessor::MultiPolygon(
                        ReprojectionProcessor { source, from: self.state.0, to: self.state.1 },
                    )
                },
            },
    {
        let (from, to) = self.state;
        match source {
            TypedVectorQueryProcessor::Data(source) => TypedVectorQueryProcessor::Data(
                MapQueryProcessor { source, from, to },
            ),
            TypedVectorQueryProcessor::MultiPoint(source) => TypedVectorQueryProcessor::MultiPoint(
                ReprojectionProcessor::new(source, from, to),
            ),
            TypedVectorQueryProcessor::MultiLineString(source) => {
                TypedVectorQueryProcessor::MultiLineString(
                    ReprojectionProcessor::new(source, from, to),
                )
            },
            TypedVectorQueryProcessor::MultiPolygon(source) => {
                TypedVectorQueryProcessor::MultiPolygon(
                    ReprojectionProcessor::new(source, from, to),
                )
            },
        }
    }
}

} // verus!
