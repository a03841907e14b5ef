//! Compilation of expressions to instructions.

use crate::ast::Operator;
use crate::environment::Environment;
use crate::ir::ast::{
    expression_views, function_definition_views, value_definition_views, Expression,
    FunctionDefinition, ValueDefinition,
};
use crate::ir::compile::emission::{
    allocate_closures, captured_values, compile_expression, compile_expressions,
    compile_value_definitions, compile_variable, index_constant, initialize_closure,
    initialize_closures, is_closure_pointer, lookup, store_captured_values, unwrap_value,
    variables_view, Failure, State, Variables,
};
use crate::ir::compile::error::CompileError;
use crate::ir::compile::function_compiler::FunctionCompiler;
use crate::ir::compile::lemmas::{
    lemma_closure_addresses, lemma_compile_expressions_error,
    lemma_compile_value_definitions_error, lemma_field_address, lemma_field_of_field_address,
    lemma_initialize_closures_error, lemma_variables_view_insert,
};
use crate::ir::compile::type_compiler::{closure_type, environment_type, TypeCompiler};
use crate::llvm::builder::{callable, Builder, BuilderView};
use crate::llvm::module::{Module, ModuleView};
use crate::llvm::types::{Type, TypeKind, TypeView};
use crate::llvm::value::{const_int, const_real, type_of, value_views, Value, ValueView};
use vstd::prelude::*;

verus! {

pub struct ExpressionCompiler<'a> {
    pub function_compiler: &'a FunctionCompiler<'a>,
    pub type_compiler: &'a TypeCompiler,
}

/// Whether `result` is the value or the error, and `module` and `builder`
/// the state, that `outcome` holds.
pub open spec fn agrees(
    outcome: Result<(ValueView, State), Failure>,
    result: Result<Value, CompileError>,
    module: ModuleView,
    builder: BuilderView,
) -> bool {
    match result {
        Ok(value) => outcome == Ok::<_, Failure>((value@, State { module, builder })),
        Err(error) => outcome == Err::<(ValueView, State), _>((error, State { module, builder })),
    }
}

/// Whether a value of the given type is a pointer to a closure.
pub fn is_closure_pointer_type(type_: &Type) -> (result: bool)
    ensures
        result == is_closure_pointer(type_@),
{
    match type_ {
        Type::Pointer(element) => match &**element {
            Type::Struct(fields) => {
                proof {
                    crate::llvm::types::lemma_struct_view(*fields);
                    assert(element@ == TypeView::Struct(crate::llvm::types::type_views(fields@)));
                }
                if fields.len() < 2 {
                    false
                } else {
                    match &fields[0] {
                        Type::Pointer(callee) => {
                            assert(fields[0]@ == TypeView::Pointer(Box::new(callee@)));
                            match &**callee {
                                Type::Function { .. } => {
                                    assert(callee@ is Function);
                                    true
                                },
                                _ => {
                                    assert(!(callee@ is Function));
                                    false
                                },
                            }
                        },
                        _ => {
                            assert(!(fields[0]@ is Pointer));
                            false
                        },
                    }
                }
            },
            _ => {
                assert(!(element@ is Struct));
                false
            },
        },
        _ => false,
    }
}

impl<'a> ExpressionCompiler<'a> {
    pub fn new(function_compiler: &'a FunctionCompiler<'a>, type_compiler: &'a TypeCompiler) -> (result:
        Self)
        ensures
            result.function_compiler == function_compiler,
            result.type_compiler == type_compiler,
    {
        Self { function_compiler, type_compiler }
    }

    /// The values that global names are bound to.
    pub open spec fn globals(&self) -> Variables {
        self.function_compiler.globals()
    }

    /// The value that a name is bound to: a local binding hides a global one.
    pub fn find<'b>(&'b self, name: &String, variables: &'b Environment<Value>) -> (result: Option<
        &'b Value,
    >)
        ensures
            match result {
                Some(value) => lookup(self.globals(), variables_view(variables@), name@) == Some(
                    value@,
                ),
                None => lookup(self.globals(), variables_view(variables@), name@) is None,
            },
    {
        match variables.get(name) {
            Some(value) => Some(value),
            None => self.function_compiler.globals.get(name),
        }
    }

    /// Emits what the expression computes into the block that the builder is
    /// positioned at, adds the entry functions of the functions that the
    /// expression defines to the module, and gives the value of the
    /// expression. The bindings are left as they were, also where it fails.
    /// Where it fails, what was emitted before stays in the builder and in
    /// the module.
    pub fn compile(
        &self,
        expression: &Expression,
        variables: &mut Environment<Value>,
        builder: &mut Builder,
        module: &mut Module,
    ) -> (result: Result<Value, CompileError>)
        requires
            old(builder)@.positioned(),
            callable(old(module)@, "malloc"@),
        ensures
            agrees(
                compile_expression(
                    expression@,
                    self.globals(),
                    variables_view(old(variables)@),
                    State { module: old(module)@, builder: old(builder)@ },
                ),
                result,
                final(module)@,
                final(builder)@,
            ),
            final(variables).bindings@ == old(variables).bindings@,
            result is Ok ==> final(builder)@.positioned(),
            result is Ok ==> callable(final(module)@, "malloc"@),
        decreases expression, 0nat,
    {
        match expression {
            Expression::Number(bits) => Ok(const_real(*bits)),
            Expression::Variable(name) => self.compile_variable(name, variables, builder, module),
            Expression::Operation { operator, lhs, rhs } => {
                let lhs = self.compile(lhs, variables, builder, module)?;
                let rhs = self.compile(rhs, variables, builder, module)?;
                Ok(
                    match operator {
                        Operator::Add => builder.build_fadd(&lhs, &rhs),
                        Operator::Subtract => builder.build_fsub(&lhs, &rhs),
                        Operator::Multiply => builder.build_fmul(&lhs, &rhs),
                        Operator::Divide => builder.build_fdiv(&lhs, &rhs),
                    },
                )
            },
            Expression::Application { function, arguments } => {
                proof {
                    crate::ir::ast::lemma_application_view(*function, *arguments);
                }
                let closure = self.compile_variable(function, variables, builder, module)?;
                if !is_closure_pointer_type(&closure.type_()) {
                    return Err(CompileError::NotCallable);
                }
                proof {
                    lemma_closure_addresses(closure@);
                }
                let mut indices: Vec<Value> = Vec::new();
                indices.push(const_int(32, 0));
                indices.push(const_int(32, 1));
                assert(value_views(indices@) =~= seq![index_constant(0), index_constant(1)]);
                let environment = builder.build_gep(&closure, indices);
                let mut indices: Vec<Value> = Vec::new();
                indices.push(const_int(32, 0));
                indices.push(const_int(32, 0));
                assert(value_views(indices@) =~= seq![index_constant(0), index_constant(0)]);
                let entry_pointer = builder.build_gep(&closure, indices);
                let entry = builder.build_load(&entry_pointer);
                let mut values = self.compile_all(arguments, variables, builder, module)?;
                let ghost compiled = value_views(values@);
                let mut operands: Vec<Value> = Vec::new();
                operands.push(environment);
                operands.append(&mut values);
                assert(value_views(operands@) =~= seq![environment@] + compiled);
                Ok(builder.build_call(&entry, operands))
            },
            Expression::LetValues { definitions, expression } => {
                proof {
                    crate::ir::ast::lemma_let_values_view(*definitions, *expression);
                }
                let length = variables.len();
                let bound = self.compile_value_definitions(
                    definitions,
                    variables,
                    builder,
                    module,
                );
                let result = match bound {
                    Err(error) => Err(error),
                    Ok(_) => self.compile(expression, variables, builder, module),
                };
                variables.truncate(length);
                assert(variables.bindings@ =~= old(variables).bindings@);
                result
            },
            Expression::LetFunctions { definitions, expression } => {
                proof {
                    crate::ir::ast::lemma_let_functions_view(*definitions, *expression);
                }
                let length = variables.len();
                let closures = self.allocate_closures(definitions, variables, builder, module);
                let filled = self.initialize_closures(
                    definitions,
                    &closures,
                    variables,
                    builder,
                    module,
                );
                let result = match filled {
                    Err(error) => Err(error),
                    Ok(_) => self.compile(expression, variables, builder, module),
                };
                variables.truncate(length);
                assert(variables.bindings@ =~= old(variables).bindings@);
                result
            },
        }
    }

    /// Compiles the expressions one after another and gives their values.
    pub fn compile_all(
        &self,
        expressions: &Vec<Expression>,
        variables: &mut Environment<Value>,
        builder: &mut Builder,
        module: &mut Module,
    ) -> (result: Result<Vec<Value>, CompileError>)
        requires
            old(builder)@.positioned(),
            callable(old(module)@, "malloc"@),
        ensures
            match result {
                Ok(values) => compile_expressions(
                    expression_views(expressions@),
                    self.globals(),
                    variables_view(old(variables)@),
                    State { module: old(module)@, builder: old(builder)@ },
                ) == Ok::<_, Failure>(
                    (value_views(values@), State { module: final(module)@, builder: final(builder)@ }),
                ),
                Err(error) => compile_expressions(
                    expression_views(expressions@),
                    self.globals(),
                    variables_view(old(variables)@),
                    State { module: old(module)@, builder: old(builder)@ },
                ) == Err::<(Seq<ValueView>, State), _>(
                    (error, State { module: final(module)@, builder: final(builder)@ }),
                ),
            },
            final(variables).bindings@ == old(variables).bindings@,
            result is Ok ==> final(builder)@.positioned(),
            result is Ok ==> callable(final(module)@, "malloc"@),
        decreases expressions, 0nat,
    {
        let ghost all = expression_views(expressions@);
        let ghost locals = variables_view(variables@);
        let ghost initial = State { module: module@, builder: builder@ };
        let mut values: Vec<Value> = Vec::new();
        let mut index: usize = 0;
        assert(all.take(0) =~= Seq::empty());
        assert(value_views(values@) =~= Seq::empty());
        while index < expressions.len()
            invariant
                index <= expressions.len(),
                all == expression_views(expressions@),
                locals == variables_view(old(variables)@),
                initial == (State { module: old(module)@, builder: old(builder)@ }),
                locals == variables_view(variables@),
                variables.bindings@ == old(variables).bindings@,
                builder@.positioned(),
                callable(module@, "malloc"@),
                compile_expressions(all.take(index as int), self.globals(), locals, initial)
                    == Ok::<_, Failure>(
                    (value_views(values@), State { module: module@, builder: builder@ }),
                ),
            decreases expressions.len() - index,
        {
            proof {
                assert(all.take(index + 1).drop_last() =~= all.take(index as int));
                assert(all.take(index + 1).last() == expressions[index as int]@);
            }
            let ghost before = value_views(values@);
            match self.compile(&expressions[index], variables, builder, module) {
                Ok(value) => {
                    values.push(value);
                    assert(value_views(values@) =~= before.push(value@));
                },
                Err(error) => {
                    proof {
                        assert(compile_expressions(
                            all.take(index + 1),
                            self.globals(),
                            locals,
                            initial,
                        ) == Err::<(Seq<ValueView>, State), _>((error, State { module: module@, builder: builder@ })));
                        lemma_compile_expressions_error(
                            all,
                            self.globals(),
                            locals,
                            initial,
                            index + 1,
                        );
                    }
                    return Err(error);
                },
            }
            index += 1;
        }
        assert(all.take(index as int) =~= all);
        Ok(values)
    }

    /// Compiles the bodies of the definitions one after another and binds
    /// each name to the value of its body.
    pub fn compile_value_definitions(
        &self,
        definitions: &Vec<ValueDefinition>,
        variables: &mut Environment<Value>,
        builder: &mut Builder,
        module: &mut Module,
    ) -> (result: Result<(), CompileError>)
        requires
            old(builder)@.positioned(),
            callable(old(module)@, "malloc"@),
        ensures
            match result {
                Ok(_) => compile_value_definitions(
                    value_definition_views(definitions@),
                    self.globals(),
                    variables_view(old(variables)@),
                    State { module: old(module)@, builder: old(builder)@ },
                ) == Ok::<_, Failure>(
                    (
                        variables_view(final(variables)@),
                        State { module: final(module)@, builder: final(builder)@ },
                    ),
                ),
                Err(error) => compile_value_definitions(
                    value_definition_views(definitions@),
                    self.globals(),
                    variables_view(old(variables)@),
                    State { module: old(module)@, builder: old(builder)@ },
                ) == Err::<(Variables, State), _>(
                    (error, State { module: final(module)@, builder: final(builder)@ }),
                ),
            },
            old(variables).bindings@.len() <= final(variables).bindings@.len(),
            final(variables).bindings@.take(old(variables).bindings@.len() as int) == old(
                variables,
            ).bindings@,
            result is Ok ==> final(builder)@.positioned(),
            result is Ok ==> callable(final(module)@, "malloc"@),
        decreases definitions, 0nat,
    {
        let ghost all = value_definition_views(definitions@);
        let ghost locals = variables_view(variables@);
        let ghost initial = State { module: module@, builder: builder@ };
        let mut index: usize = 0;
        assert(all.take(0) =~= Seq::empty());
        assert(variables.bindings@.take(variables.bindings@.len() as int) =~= variables.bindings@);
        while index < definitions.len()
            invariant
                index <= definitions.len(),
                all == value_definition_views(definitions@),
                locals == variables_view(old(variables)@),
                initial == (State { module: old(module)@, builder: old(builder)@ }),
                old(variables).bindings@.len() <= variables.bindings@.len(),
                variables.bindings@.take(old(variables).bindings@.len() as int)
                    == old(variables).bindings@,
                builder@.positioned(),
                callable(module@, "malloc"@),
                compile_value_definitions(all.take(index as int), self.globals(), locals, initial)
                    == Ok::<_, Failure>(
                    (variables_view(variables@), State { module: module@, builder: builder@ }),
                ),
            decreases definitions.len() - index,
        {
            proof {
                assert(all.take(index + 1).drop_last() =~= all.take(index as int));
                assert(all.take(index + 1).last() == definitions[index as int]@);
            }
            let definition = &definitions[index];
            match self.compile(&definition.body, variables, builder, module) {
                Ok(value) => {
                    proof {
                        lemma_variables_view_insert(variables@, definition.name@, value);
                    }
                    let ghost before = variables.bindings@;
                    variables.insert(definition.name.clone(), value);
                    assert(variables.bindings@.take(old(variables).bindings@.len() as int)
                        =~= before.take(old(variables).bindings@.len() as int));
                },
                Err(error) => {
                    proof {
                        assert(compile_value_definitions(
                            all.take(index + 1),
                            self.globals(),
                            locals,
                            initial,
                        ) == Err::<(Variables, State), _>((error, State { module: module@, builder: builder@ })));
                        lemma_compile_value_definitions_error(
                            all,
                            self.globals(),
                            locals,
                            initial,
                            index + 1,
                        );
                    }
                    return Err(error);
                },
            }
            index += 1;
        }
        assert(all.take(index as int) =~= all);
        Ok(())
    }

    /// Allocates the closure of every definition, binds the name of each to
    /// its closure, and gives the closures as they are filled through.
    pub fn allocate_closures(
        &self,
        definitions: &Vec<FunctionDefinition>,
        variables: &mut Environment<Value>,
        builder: &mut Builder,
        module: &Module,
    ) -> (closures: Vec<Value>)
        requires
            old(builder)@.positioned(),
            callable(module@, "malloc"@),
        ensures
            allocate_closures(
                function_definition_views(definitions@),
                variables_view(old(variables)@),
                State { module: module@, builder: old(builder)@ },
            ) == (
                variables_view(final(variables)@),
                value_views(closures@),
                State { module: module@, builder: final(builder)@ },
            ),
            closures.len() == definitions.len(),
            forall|i: int|
                0 <= i < definitions.len() ==> type_of((#[trigger] closures[i])@)
                    == TypeView::Pointer(Box::new(closure_type(definitions[i]@))),
            old(variables).bindings@.len() <= final(variables).bindings@.len(),
            final(variables).bindings@.take(old(variables).bindings@.len() as int) == old(
                variables,
            ).bindings@,
            final(builder)@.positioned(),
    {
        let ghost all = function_definition_views(definitions@);
        let ghost locals = variables_view(variables@);
        let ghost initial = State { module: module@, builder: builder@ };
        let mut closures: Vec<Value> = Vec::new();
        let mut index: usize = 0;
        assert(all.take(0) =~= Seq::empty());
        assert(value_views(closures@) =~= Seq::empty());
        assert(variables.bindings@.take(variables.bindings@.len() as int) =~= variables.bindings@);
        while index < definitions.len()
            invariant
                index <= definitions.len(),
                closures.len() == index,
                all == function_definition_views(definitions@),
                old(variables).bindings@.len() <= variables.bindings@.len(),
                variables.bindings@.take(old(variables).bindings@.len() as int)
                    == old(variables).bindings@,
                builder@.positioned(),
                callable(module@, "malloc"@),
                forall|i: int|
                    0 <= i < index ==> type_of((#[trigger] closures[i])@) == TypeView::Pointer(
                        Box::new(closure_type(definitions[i]@)),
                    ),
                allocate_closures(all.take(index as int), locals, initial) == (
                    variables_view(variables@),
                    value_views(closures@),
                    State { module: module@, builder: builder@ },
                ),
            decreases definitions.len() - index,
        {
            proof {
                assert(all.take(index + 1).drop_last() =~= all.take(index as int));
                assert(all.take(index + 1).last() == definitions[index as int]@);
            }
            let definition = &definitions[index];
            let sized = self.type_compiler.compile_closure(definition);
            let size = sized.size();
            let pointer = builder.build_malloc(module, &size);
            let unsized_closure = builder.build_bit_cast(
                &pointer,
                Type::pointer(self.type_compiler.compile_unsized_closure(&definition.type_())),
            );
            proof {
                lemma_variables_view_insert(variables@, definition.name@, unsized_closure);
            }
            let ghost before = variables.bindings@;
            variables.insert(definition.name.clone(), unsized_closure);
            assert(variables.bindings@.take(old(variables).bindings@.len() as int) =~= before.take(
                old(variables).bindings@.len() as int,
            ));
            let sized_closure = builder.build_bit_cast(&pointer, Type::pointer(sized));
            let ghost allocated = value_views(closures@);
            closures.push(sized_closure);
            assert(value_views(closures@) =~= allocated.push(sized_closure@));
            index += 1;
        }
        assert(all.take(index as int) =~= all);
        closures
    }

    /// Fills the closure of every definition: with its entry function and
    /// with the values of the variables that it captures.
    pub fn initialize_closures(
        &self,
        definitions: &Vec<FunctionDefinition>,
        closures: &Vec<Value>,
        variables: &Environment<Value>,
        builder: &mut Builder,
        module: &mut Module,
    ) -> (result: Result<(), CompileError>)
        requires
            old(builder)@.positioned(),
            callable(old(module)@, "malloc"@),
            closures.len() == definitions.len(),
            forall|i: int|
                0 <= i < definitions.len() ==> type_of((#[trigger] closures[i])@)
                    == TypeView::Pointer(Box::new(closure_type(definitions[i]@))),
        ensures
            match result {
                Ok(_) => initialize_closures(
                    function_definition_views(definitions@),
                    value_views(closures@),
                    self.globals(),
                    variables_view(variables@),
                    State { module: old(module)@, builder: old(builder)@ },
                ) == Ok::<_, Failure>(
                    State { module: final(module)@, builder: final(builder)@ },
                ),
                Err(error) => initialize_closures(
                    function_definition_views(definitions@),
                    value_views(closures@),
                    self.globals(),
                    variables_view(variables@),
                    State { module: old(module)@, builder: old(builder)@ },
                ) == Err::<State, _>(
                    (error, State { module: final(module)@, builder: final(builder)@ }),
                ),
            },
            result is Ok ==> final(builder)@.positioned(),
            result is Ok ==> callable(final(module)@, "malloc"@),
        decreases definitions, 0nat,
    {
        let ghost all = function_definition_views(definitions@);
        let ghost filled = value_views(closures@);
        let ghost locals = variables_view(variables@);
        let ghost initial = State { module: module@, builder: builder@ };
        let mut index: usize = 0;
        assert(all.take(0) =~= Seq::empty());
        assert(filled.take(0) =~= Seq::empty());
        while index < definitions.len()
            invariant
                index <= definitions.len(),
                closures.len() == definitions.len(),
                all == function_definition_views(definitions@),
                filled == value_views(closures@),
                locals == variables_view(variables@),
                initial == (State { module: old(module)@, builder: old(builder)@ }),
                builder@.positioned(),
                callable(module@, "malloc"@),
                forall|i: int|
                    0 <= i < definitions.len() ==> type_of((#[trigger] closures[i])@)
                        == TypeView::Pointer(Box::new(closure_type(definitions[i]@))),
                initialize_closures(
                    all.take(index as int),
                    filled.take(index as int),
                    self.globals(),
                    locals,
                    initial,
                ) == Ok::<_, Failure>(State { module: module@, builder: builder@ }),
            decreases definitions.len() - index,
        {
            proof {
                assert(all.take(index + 1).drop_last() =~= all.take(index as int));
                assert(all.take(index + 1).last() == definitions[index as int]@);
                assert(filled.take(index + 1).drop_last() =~= filled.take(index as int));
                assert(filled.take(index + 1).last() == closures[index as int]@);
            }
            match self.initialize_closure(
                &definitions[index],
                &closures[index],
                variables,
                builder,
                module,
            ) {
                Ok(_) => {},
                Err(error) => {
                    proof {
                        assert(initialize_closures(
                            all.take(index + 1),
                            filled.take(index + 1),
                            self.globals(),
                            locals,
                            initial,
                        ) == Err::<State, _>((error, State { module: module@, builder: builder@ })));
                        lemma_initialize_closures_error(
                            all,
                            filled,
                            self.globals(),
                            locals,
                            initial,
                            index + 1,
                        );
                    }
                    return Err(error);
                },
            }
            index += 1;
        }
        assert(all.take(index as int) =~= all);
        assert(filled.take(index as int) =~= filled);
        Ok(())
    }

    /// Fills one closure: compiles the entry function of the definition and
    /// stores its address in the first field, then stores the values of the
    /// captured variables in the environment.
    pub fn initialize_closure(
        &self,
        definition: &FunctionDefinition,
        closure: &Value,
        variables: &Environment<Value>,
        builder: &mut Builder,
        module: &mut Module,
    ) -> (result: Result<(), CompileError>)
        requires
            old(builder)@.positioned(),
            callable(old(module)@, "malloc"@),
            type_of(closure@) == TypeView::Pointer(Box::new(closure_type(definition@))),
        ensures
            match result {
                Ok(_) => initialize_closure(
                    definition@,
                    closure@,
                    self.globals(),
                    variables_view(variables@),
                    State { module: old(module)@, builder: old(builder)@ },
                ) == Ok::<_, Failure>(
                    State { module: final(module)@, builder: final(builder)@ },
                ),
                Err(error) => initialize_closure(
                    definition@,
                    closure@,
                    self.globals(),
                    variables_view(variables@),
                    State { module: old(module)@, builder: old(builder)@ },
                ) == Err::<State, _>(
                    (error, State { module: final(module)@, builder: final(builder)@ }),
                ),
            },
            result is Ok ==> final(builder)@.positioned(),
            result is Ok ==> callable(final(module)@, "malloc"@),
        decreases definition, 1nat,
    {
        let entry = self.function_compiler.compile(definition, module)?;
        let mut indices: Vec<Value> = Vec::new();
        indices.push(const_int(32, 0));
        indices.push(const_int(32, 0));
        proof {
            assert(value_views(indices@) =~= seq![index_constant(0), index_constant(0)]);
            lemma_field_address(closure@, closure_type(definition@)->Struct_0, 0);
        }
        let address = builder.build_gep(closure, indices);
        builder.build_store(&entry, &address);
        match self.captured_values(&definition.environment, variables) {
            Some(values) => {
                assert(values.len() == value_views(values@).len());
                self.store_captured_values(definition, &values, closure, builder, module);
                Ok(())
            },
            None => Err(CompileError::VariableNotFound),
        }
    }

    /// The values that the captured variables are bound to, if all are bound.
    pub fn captured_values(
        &self,
        environment: &Vec<crate::ir::ast::Argument>,
        variables: &Environment<Value>,
    ) -> (result: Option<Vec<Value>>)
        ensures
            match result {
                Some(values) => captured_values(
                    crate::ir::ast::argument_views(environment@),
                    self.globals(),
                    variables_view(variables@),
                ) == Some(value_views(values@)),
                None => captured_values(
                    crate::ir::ast::argument_views(environment@),
                    self.globals(),
                    variables_view(variables@),
                ) is None,
            },
    {
        let ghost captured = crate::ir::ast::argument_views(environment@);
        let mut values: Vec<Value> = Vec::new();
        let mut index: usize = 0;
        while index < environment.len()
            invariant
                index <= environment.len(),
                captured == crate::ir::ast::argument_views(environment@),
                values.len() == index,
                forall|i: int|
                    0 <= i < index ==> lookup(
                        self.globals(),
                        variables_view(variables@),
                        (#[trigger] captured[i]).name,
                    ) == Some(values[i]@),
            decreases environment.len() - index,
        {
            match self.find(&environment[index].name, variables) {
                Some(value) => {
                    values.push(value.duplicate());
                },
                None => {
                    assert(lookup(
                        self.globals(),
                        variables_view(variables@),
                        captured[index as int].name,
                    ) is None);
                    return None;
                },
            }
            index += 1;
        }
        assert(captured_values(captured, self.globals(), variables_view(variables@))->Some_0
            =~= value_views(values@));
        Some(values)
    }

    /// Stores the given values in the environment of a closure, in order.
    pub fn store_captured_values(
        &self,
        definition: &FunctionDefinition,
        values: &Vec<Value>,
        closure: &Value,
        builder: &mut Builder,
        module: &Module,
    )
        requires
            old(builder)@.positioned(),
            type_of(closure@) == TypeView::Pointer(Box::new(closure_type(definition@))),
            values.len() == definition@.environment.len(),
        ensures
            store_captured_values(
                definition@.environment,
                value_views(values@),
                closure@,
                values.len() as int,
                State { module: module@, builder: old(builder)@ },
            ) == (State { module: module@, builder: final(builder)@ }),
            final(builder)@.positioned(),
    {
        let ghost fields = closure_type(definition@)->Struct_0;
        let ghost slots = environment_type(definition@.environment)->Struct_0;
        let ghost initial = State { module: module@, builder: builder@ };
        let mut index: usize = 0;
        while index < values.len()
            invariant
                index <= values.len(),
                values.len() == definition@.environment.len(),
                builder@.positioned(),
                type_of(closure@) == TypeView::Pointer(Box::new(closure_type(definition@))),
                fields == closure_type(definition@)->Struct_0,
                slots == environment_type(definition@.environment)->Struct_0,
                store_captured_values(
                    definition@.environment,
                    value_views(values@),
                    closure@,
                    index as int,
                    initial,
                ) == (State { module: module@, builder: builder@ }),
            decreases values.len() - index,
        {
            let mut indices: Vec<Value> = Vec::new();
            indices.push(const_int(32, 0));
            indices.push(const_int(32, 1));
            indices.push(const_int(32, index as u64));
            proof {
                assert(value_views(indices@) =~= seq![
                    index_constant(0),
                    index_constant(1),
                    index_constant(index as int),
                ]);
                lemma_field_of_field_address(closure@, fields, slots, 1, index as int);
            }
            let address = builder.build_gep(closure, indices);
            builder.build_store(&values[index], &address);
            index += 1;
        }
    }

    /// Compiles a use of a variable.
    pub fn compile_variable(
        &self,
        variable: &String,
        variables: &Environment<Value>,
        builder: &mut Builder,
        module: &Module,
    ) -> (result: Result<Value, CompileError>)
        requires
            old(builder)@.positioned(),
        ensures
            agrees(
                compile_variable(
                    variable@,
                    self.globals(),
                    variables_view(variables@),
                    State { module: module@, builder: old(builder)@ },
                ),
                result,
                module@,
                final(builder)@,
            ),
            result is Ok ==> final(builder)@.positioned(),
    {
        match self.find(variable, variables) {
            Some(value) => Ok(self.unwrap_value(value, builder, module)),
            None => Err(CompileError::VariableNotFound),
        }
    }

    /// What a bound value is used as: a pointer to a double is loaded from,
    /// every other value is taken as it is.
    pub fn unwrap_value(&self, value: &Value, builder: &mut Builder, module: &Module) -> (result:
        Value)
        requires
            old(builder)@.positioned(),
        ensures
            unwrap_value(value@, State { module: module@, builder: old(builder)@ }) == (
                result@,
                State { module: module@, builder: final(builder)@ },
            ),
            final(builder)@.positioned(),
    {
        let type_ = value.type_();
        if type_.kind() == TypeKind::Pointer {
            match type_.element().kind() {
                TypeKind::Double => builder.build_load(value),
                _ => value.duplicate(),
            }
        } else {
            value.duplicate()
        }
    }
}

} // verus!
