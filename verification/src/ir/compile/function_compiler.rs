//! Compilation of function definitions to entry functions.

use crate::environment::Environment;
use crate::ir::ast::{FunctionDefinition};
use crate::ir::compile::emission::{
    bind_arguments, closure_entry_name, compile_function, index_constant, load_captured_values,
    variables_view, State, Variables,
};
use crate::ir::compile::error::CompileError;
use crate::ir::compile::expression_compiler::ExpressionCompiler;
use crate::ir::compile::lemmas::{
    lemma_callable_add_function, lemma_field_address, lemma_variables_view_empty,
    lemma_variables_view_insert,
};
use crate::ir::compile::type_compiler::{
    entry_function_type, environment_type, machine_types, TypeCompiler,
};
use crate::llvm::builder::{callable, Builder, BuilderView};
use crate::llvm::module::Module;
use crate::llvm::types::{Type, TypeView};
use crate::llvm::value::{const_int, get_param, value_views, Value, ValueView};
use vstd::prelude::*;
use vstd::string::StringExecFns;

verus! {

pub struct FunctionCompiler<'a> {
    pub globals: &'a Environment<Value>,
    pub type_compiler: &'a TypeCompiler,
}

impl<'a> FunctionCompiler<'a> {
    pub fn new(globals: &'a Environment<Value>, type_compiler: &'a TypeCompiler) -> (result: Self)
        ensures
            result.globals == globals,
            result.type_compiler == type_compiler,
    {
        Self { globals, type_compiler }
    }

    /// The values that global names are bound to.
    pub open spec fn globals(&self) -> Variables {
        variables_view(self.globals@)
    }

    /// The name of the entry function of the function of the given name.
    pub fn generate_closure_entry_name(name: &String) -> (result: String)
        ensures
            result@ == closure_entry_name(name@),
    {
        name.clone().concat(".$entry")
    }

    /// Adds the entry function of the definition to the module, with its
    /// body, and gives its address.
    pub fn compile(&self, function_definition: &FunctionDefinition, module: &mut Module) -> (result:
        Result<Value, CompileError>)
        requires
            callable(old(module)@, "malloc"@),
        ensures
            match result {
                Ok(entry) => compile_function(
                    function_definition@,
                    self.globals(),
                    old(module)@,
                ) == Ok::<_, (CompileError, crate::llvm::module::ModuleView)>(
                    (entry@, final(module)@),
                ) && callable(
                    final(module)@,
                    "malloc"@,
                ),
                Err(error) => compile_function(function_definition@, self.globals(), old(module)@)
                    == Err::<(ValueView, crate::llvm::module::ModuleView), _>(
                    (error, final(module)@),
                ),
            },
        decreases function_definition, 0nat,
    {
        let ghost definition = function_definition@;
        let function_type = self.type_compiler.compile_function(&function_definition.type_());
        let ghost type_ = function_type@;
        let ghost function = module@.functions.len() as usize;
        proof {
            lemma_callable_add_function(
                module@,
                closure_entry_name(definition.name),
                type_,
                "malloc"@,
            );
        }
        let entry = module.add_function(
            Self::generate_closure_entry_name(&function_definition.name),
            function_type,
        );
        let mut builder = Builder::new(&entry);
        let block = builder.append_basic_block("entry");
        builder.position_at_end(block);
        assert(builder@ == BuilderView::new(function).enter());
        let parameter = get_param(&entry, 0);
        let environment = builder.build_bit_cast(
            &parameter,
            Type::pointer(self.type_compiler.compile_environment(&function_definition.environment)),
        );
        let ghost initial = State { module: module@, builder: builder@ };
        let mut variables: Environment<Value> = Environment::new();
        proof {
            lemma_variables_view_empty();
        }
        let captured = &function_definition.environment;
        let mut index: usize = 0;
        while index < captured.len()
            invariant
                index <= captured.len(),
                captured == &function_definition.environment,
                definition == function_definition@,
                builder@.positioned(),
                environment@ is Register,
                environment@->Register_type_ == TypeView::Pointer(
                    Box::new(environment_type(definition.environment)),
                ),
                load_captured_values(
                    definition.environment,
                    environment@,
                    index as int,
                    Map::empty(),
                    initial,
                ) == (variables_view(variables@), State { module: module@, builder: builder@ }),
            decreases captured.len() - index,
        {
            let mut indices: Vec<Value> = Vec::new();
            indices.push(const_int(32, 0));
            indices.push(const_int(32, index as u64));
            proof {
                assert(value_views(indices@) =~= seq![
                    index_constant(0),
                    index_constant(index as int),
                ]);
                lemma_field_address(
                    environment@,
                    environment_type(definition.environment)->Struct_0,
                    index as int,
                );
            }
            let address = builder.build_gep(&environment, indices);
            let value = builder.build_load(&address);
            proof {
                lemma_variables_view_insert(variables@, captured[index as int].name@, value);
            }
            variables.insert(captured[index].name.clone(), value);
            index += 1;
        }
        let ghost loaded = variables_view(variables@);
        let arguments = &function_definition.arguments;
        let mut index: usize = 0;
        while index < arguments.len()
            invariant
                index <= arguments.len(),
                arguments == &function_definition.arguments,
                definition == function_definition@,
                entry@ == (ValueView::Function { index: function, type_ }),
                type_ == entry_function_type(definition.type_()),
                bind_arguments(definition.arguments, function, index as int, loaded)
                    == variables_view(variables@),
            decreases arguments.len() - index,
        {
            proof {
                assert(type_->arguments[index + 1] == machine_types(
                    definition.type_()->arguments,
                )[index as int]);
            }
            let parameter = get_param(&entry, index + 1);
            proof {
                lemma_variables_view_insert(variables@, arguments[index as int].name@, parameter);
            }
            variables.insert(arguments[index].name.clone(), parameter);
            index += 1;
        }
        let expression_compiler = ExpressionCompiler::new(self, self.type_compiler);
        let value = expression_compiler.compile(
            &function_definition.body,
            &mut variables,
            &mut builder,
            module,
        )?;
        builder.build_ret(&value);
        module.define_function(builder);
        Ok(entry)
    }
}

} // verus!
